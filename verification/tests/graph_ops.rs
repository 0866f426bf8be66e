//! Tests of the identity graph: registration, renaming, re-parenting,
//! removal and the walks over parent pointers.

use axes::graph::GlobalIndex;
use axes::index_manager::{
    add_project_to_index, build_qualified_name, ensure_global_project, find_cycle_from_node,
    get_all_descendants, link_project, project_ref_from_index, remove_from_index, rename_project,
    IndexError, GLOBAL_PROJECT_UUID,
};
use axes::models::IndexEntry;

fn graph_with_root() -> GlobalIndex {
    let mut index = GlobalIndex::new();
    let created = ensure_global_project(&mut index, "/home/user/.config/axes");
    assert!(created);
    index
}

#[test]
fn ensure_root_is_idempotent() {
    let mut index = graph_with_root();
    assert!(!ensure_global_project(&mut index, "/elsewhere"));
    let root = index.get_entry(GLOBAL_PROJECT_UUID).unwrap();
    assert_eq!(root.name, "global");
    assert_eq!(root.path, "/home/user/.config/axes");
    assert!(root.parent.is_none());
}

#[test]
fn add_with_distinct_names_succeeds_and_is_retrievable() {
    let mut index = graph_with_root();
    let a = add_project_to_index(&mut index, "api".to_owned(), "/srv/api".to_owned(), None)
        .unwrap();
    let b = add_project_to_index(&mut index, "web".to_owned(), "/srv/web".to_owned(), None)
        .unwrap();
    assert_ne!(a, b);
    let entry = index.get_entry(a).unwrap();
    assert_eq!(entry.name, "api");
    assert_eq!(entry.path, "/srv/api");
    assert_eq!(entry.parent, Some(GLOBAL_PROJECT_UUID));
    assert_eq!(index.get_entry(b).unwrap().name, "web");
}

#[test]
fn add_duplicate_sibling_name_fails_with_collision() {
    let mut index = graph_with_root();
    add_project_to_index(&mut index, "api".to_owned(), "/srv/api".to_owned(), None).unwrap();
    let second = add_project_to_index(&mut index, "api".to_owned(), "/elsewhere".to_owned(), None);
    assert!(matches!(second, Err(IndexError::NameAlreadyExists { name }) if name == "api"));
    // the same name under a different parent is fine
    let web = add_project_to_index(&mut index, "web".to_owned(), "/srv/web".to_owned(), None)
        .unwrap();
    add_project_to_index(&mut index, "api".to_owned(), "/srv/web/api".to_owned(), Some(web))
        .unwrap();
}

#[test]
fn add_under_unknown_parent_fails() {
    let mut index = graph_with_root();
    let r = add_project_to_index(&mut index, "x".to_owned(), "/x".to_owned(), Some(42));
    assert!(matches!(r, Err(IndexError::UuidNotFound { uuid: 42 })));
}

#[test]
fn rename_changes_only_the_name() {
    let mut index = graph_with_root();
    let a = add_project_to_index(&mut index, "api".to_owned(), "/srv/api".to_owned(), None)
        .unwrap();
    let c = add_project_to_index(&mut index, "v1".to_owned(), "/srv/api/v1".to_owned(), Some(a))
        .unwrap();
    rename_project(&mut index, c, "v2").unwrap();
    let entry = index.get_entry(c).unwrap();
    assert_eq!(entry.name, "v2");
    assert_eq!(entry.parent, Some(a));
    assert_eq!(entry.path, "/srv/api/v1");
}

#[test]
fn rename_to_sibling_name_fails() {
    let mut index = graph_with_root();
    let a = add_project_to_index(&mut index, "api".to_owned(), "/srv/api".to_owned(), None)
        .unwrap();
    let _ = a;
    add_project_to_index(&mut index, "web".to_owned(), "/srv/web".to_owned(), None).unwrap();
    let api = index.find_child_by_name(GLOBAL_PROJECT_UUID, "api").unwrap();
    let r = rename_project(&mut index, api, "web");
    assert!(matches!(r, Err(IndexError::NameAlreadyExists { name }) if name == "web"));
    assert_eq!(index.get_entry(api).unwrap().name, "api");
}

#[test]
fn link_moves_a_project_under_a_new_parent() {
    let mut index = graph_with_root();
    let a = add_project_to_index(&mut index, "api".to_owned(), "/srv/api".to_owned(), None)
        .unwrap();
    let w = add_project_to_index(&mut index, "web".to_owned(), "/srv/web".to_owned(), None)
        .unwrap();
    link_project(&mut index, a, w).unwrap();
    assert_eq!(index.get_entry(a).unwrap().parent, Some(w));
    assert_eq!(index.get_entry(a).unwrap().name, "api");
}

#[test]
fn link_to_self_or_descendant_fails_and_leaves_graph_unchanged() {
    let mut index = graph_with_root();
    let a = add_project_to_index(&mut index, "a".to_owned(), "/a".to_owned(), None).unwrap();
    let b = add_project_to_index(&mut index, "b".to_owned(), "/a/b".to_owned(), Some(a)).unwrap();
    let c = add_project_to_index(&mut index, "c".to_owned(), "/a/b/c".to_owned(), Some(b))
        .unwrap();
    // B == A
    assert!(matches!(link_project(&mut index, a, a), Err(IndexError::CycleDetected { .. })));
    // B a direct child of A
    assert!(matches!(link_project(&mut index, a, b), Err(IndexError::CycleDetected { .. })));
    // B a deeper descendant of A
    assert!(matches!(link_project(&mut index, a, c), Err(IndexError::CycleDetected { .. })));
    // nothing moved
    assert_eq!(index.get_entry(a).unwrap().parent, Some(GLOBAL_PROJECT_UUID));
    assert_eq!(index.get_entry(b).unwrap().parent, Some(a));
    assert_eq!(index.get_entry(c).unwrap().parent, Some(b));
}

#[test]
fn link_root_is_rejected() {
    let mut index = graph_with_root();
    let a = add_project_to_index(&mut index, "a".to_owned(), "/a".to_owned(), None).unwrap();
    let r = link_project(&mut index, GLOBAL_PROJECT_UUID, a);
    assert!(matches!(r, Err(IndexError::CannotModifyRoot)));
}

#[test]
fn link_with_sibling_collision_fails() {
    let mut index = graph_with_root();
    let a = add_project_to_index(&mut index, "a".to_owned(), "/a".to_owned(), None).unwrap();
    let w = add_project_to_index(&mut index, "w".to_owned(), "/w".to_owned(), None).unwrap();
    add_project_to_index(&mut index, "a".to_owned(), "/w/a".to_owned(), Some(w)).unwrap();
    let r = link_project(&mut index, a, w);
    assert!(matches!(r, Err(IndexError::NameAlreadyExists { name }) if name == "a"));
}

#[test]
fn walks_terminate_at_root_after_any_mutations() {
    let mut index = graph_with_root();
    let a = add_project_to_index(&mut index, "a".to_owned(), "/a".to_owned(), None).unwrap();
    let b = add_project_to_index(&mut index, "b".to_owned(), "/a/b".to_owned(), Some(a)).unwrap();
    let c = add_project_to_index(&mut index, "c".to_owned(), "/a/b/c".to_owned(), Some(b))
        .unwrap();
    rename_project(&mut index, b, "bee").unwrap();
    link_project(&mut index, c, a).unwrap();
    remove_from_index(&mut index, &vec![b], true);
    for (uuid, _) in index.entries() {
        assert!(matches!(find_cycle_from_node(*uuid, &index), Ok(None)));
    }
}

#[test]
fn descendants_collects_the_whole_subtree() {
    let mut index = graph_with_root();
    let a = add_project_to_index(&mut index, "a".to_owned(), "/a".to_owned(), None).unwrap();
    let b = add_project_to_index(&mut index, "b".to_owned(), "/a/b".to_owned(), Some(a)).unwrap();
    let c = add_project_to_index(&mut index, "c".to_owned(), "/a/b/c".to_owned(), Some(b))
        .unwrap();
    let other = add_project_to_index(&mut index, "x".to_owned(), "/x".to_owned(), None).unwrap();
    let mut ds = get_all_descendants(&index, a);
    ds.sort();
    let mut expected = vec![b, c];
    expected.sort();
    assert_eq!(ds, expected);
    assert!(!ds.contains(&other));
    assert!(get_all_descendants(&index, c).is_empty());
}

#[test]
fn unregister_with_reparenting_points_children_at_root() {
    let mut index = graph_with_root();
    let a = add_project_to_index(&mut index, "a".to_owned(), "/a".to_owned(), None).unwrap();
    let b = add_project_to_index(&mut index, "b".to_owned(), "/a/b".to_owned(), Some(a)).unwrap();
    let c = add_project_to_index(&mut index, "c".to_owned(), "/a/c".to_owned(), Some(a)).unwrap();
    let removed = remove_from_index(&mut index, &vec![a], true);
    assert_eq!(removed, 1);
    assert!(index.get_entry(a).is_none());
    assert_eq!(index.get_entry(b).unwrap().parent, Some(GLOBAL_PROJECT_UUID));
    assert_eq!(index.get_entry(c).unwrap().parent, Some(GLOBAL_PROJECT_UUID));
    assert!(matches!(find_cycle_from_node(b, &index), Ok(None)));
}

#[test]
fn unregister_subtree_without_reparenting_leaves_no_dangling_parents() {
    let mut index = graph_with_root();
    let a = add_project_to_index(&mut index, "a".to_owned(), "/a".to_owned(), None).unwrap();
    let b = add_project_to_index(&mut index, "b".to_owned(), "/a/b".to_owned(), Some(a)).unwrap();
    let c = add_project_to_index(&mut index, "c".to_owned(), "/a/b/c".to_owned(), Some(b))
        .unwrap();
    let keep = add_project_to_index(&mut index, "x".to_owned(), "/x".to_owned(), None).unwrap();
    let mut to_remove = vec![a];
    to_remove.extend(get_all_descendants(&index, a));
    let removed = remove_from_index(&mut index, &to_remove, false);
    assert_eq!(removed, 3);
    assert!(index.get_entry(a).is_none());
    assert!(index.get_entry(b).is_none());
    assert!(index.get_entry(c).is_none());
    // every survivor still points at an existing parent
    for (_, entry) in index.entries() {
        if let Some(p) = entry.parent {
            assert!(index.get_entry(p).is_some());
        }
    }
    assert!(matches!(find_cycle_from_node(keep, &index), Ok(None)));
}

#[test]
fn remove_never_drops_the_root() {
    let mut index = graph_with_root();
    let removed = remove_from_index(&mut index, &vec![GLOBAL_PROJECT_UUID], false);
    assert_eq!(removed, 0);
    assert!(index.get_entry(GLOBAL_PROJECT_UUID).is_some());
}

#[test]
fn cycle_and_broken_links_are_reported() {
    // a hand-edited index can hold a cycle or a dangling pointer
    let entries = vec![
        (1u128, IndexEntry { name: "a".to_owned(), path: "/a".to_owned(), parent: Some(2) }),
        (2u128, IndexEntry { name: "b".to_owned(), path: "/b".to_owned(), parent: Some(1) }),
        (3u128, IndexEntry { name: "c".to_owned(), path: "/c".to_owned(), parent: Some(9) }),
    ];
    let index = GlobalIndex::from_entries(entries, None);
    assert!(matches!(find_cycle_from_node(1, &index), Ok(Some(_))));
    assert!(matches!(
        find_cycle_from_node(3, &index),
        Err(IndexError::BrokenParentLink { child_uuid: 3, missing_parent_uuid: 9 })
    ));
}

#[test]
fn qualified_names_follow_the_ancestor_chain() {
    let mut index = graph_with_root();
    let a = add_project_to_index(&mut index, "api".to_owned(), "/srv/api".to_owned(), None)
        .unwrap();
    let v1 = add_project_to_index(&mut index, "v1".to_owned(), "/srv/api/v1".to_owned(), Some(a))
        .unwrap();
    assert_eq!(build_qualified_name(v1, &index).unwrap(), "api/v1");
    assert_eq!(build_qualified_name(a, &index).unwrap(), "api");
    assert_eq!(build_qualified_name(GLOBAL_PROJECT_UUID, &index).unwrap(), "global");
    assert!(build_qualified_name(777, &index).is_none());
}

#[test]
fn project_ref_mirrors_the_graph_entry() {
    let mut index = graph_with_root();
    let a = add_project_to_index(&mut index, "api".to_owned(), "/srv/api".to_owned(), None)
        .unwrap();
    let r = project_ref_from_index(&index, a).unwrap();
    assert_eq!(r.self_uuid, a);
    assert_eq!(r.parent_uuid, Some(GLOBAL_PROJECT_UUID));
    assert_eq!(r.name, "api");
    assert!(project_ref_from_index(&index, 999).is_none());
}

#[test]
fn add_finds_a_fresh_identity_even_beside_the_largest_key() {
    // a hand-edited index may hold the largest possible identity
    let entries = vec![(
        u128::MAX,
        IndexEntry { name: "edge".to_owned(), path: "/edge".to_owned(), parent: None },
    )];
    let mut index = GlobalIndex::from_entries(entries, None);
    ensure_global_project(&mut index, "/cfg");
    let fresh = add_project_to_index(&mut index, "a".to_owned(), "/a".to_owned(), None).unwrap();
    assert_ne!(fresh, u128::MAX);
    assert_ne!(fresh, GLOBAL_PROJECT_UUID);
    assert!(index.get_entry(fresh).is_some());
}

#[test]
fn cycle_report_names_the_first_identity_met_twice() {
    // 1 -> 2 -> 3 -> 2: walking from 1, the first identity seen twice is 2
    let entries = vec![
        (1u128, IndexEntry { name: "a".to_owned(), path: "/a".to_owned(), parent: Some(2) }),
        (2u128, IndexEntry { name: "b".to_owned(), path: "/b".to_owned(), parent: Some(3) }),
        (3u128, IndexEntry { name: "c".to_owned(), path: "/c".to_owned(), parent: Some(2) }),
    ];
    let index = GlobalIndex::from_entries(entries, None);
    assert!(matches!(find_cycle_from_node(1, &index), Ok(Some(2))));
    // starting inside the cycle, the first repeat is the start itself
    assert!(matches!(find_cycle_from_node(3, &index), Ok(Some(3))));
}
