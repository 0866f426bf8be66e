//! Tests of the context resolver: the first-segment vocabulary, later
//! segments, the query/resume protocol, and the last-used bookkeeping.

use axes::context_resolver::{
    is_valid_project_name, plan_last_used_updates, resolve_context, split_context, ContextError,
    ContextOutcome, ContextQuery, ContextReply,
};
use axes::graph::GlobalIndex;
use axes::index_manager::{add_project_to_index, ensure_global_project, IndexError, GLOBAL_PROJECT_UUID};
use axes::models::IndexEntry;

fn demo_graph() -> (GlobalIndex, u128, u128, u128) {
    let mut index = GlobalIndex::new();
    ensure_global_project(&mut index, "/cfg");
    let api = add_project_to_index(&mut index, "api".to_owned(), "/srv/api".to_owned(), None)
        .unwrap();
    let v1 = add_project_to_index(&mut index, "v1".to_owned(), "/srv/api/v1".to_owned(), Some(api))
        .unwrap();
    let v2 = add_project_to_index(&mut index, "v2".to_owned(), "/srv/api/v2".to_owned(), Some(api))
        .unwrap();
    (index, api, v1, v2)
}

fn expect_resolved(r: Result<ContextOutcome, ContextError>) -> (u128, String) {
    match r {
        Ok(ContextOutcome::Resolved(u, q)) => (u, q),
        Ok(ContextOutcome::NeedsInput(_, _)) => panic!("resolution paused unexpectedly"),
        Err(_) => panic!("resolution failed unexpectedly"),
    }
}

#[test]
fn split_keeps_nonempty_segments() {
    let segs = split_context("a/b//c/");
    assert_eq!(segs, vec!["a".to_owned(), "b".to_owned(), "c".to_owned()]);
    assert!(split_context("").is_empty());
    assert!(split_context("///").is_empty());
}

#[test]
fn literal_paths_resolve_to_children() {
    let (index, api, v1, _) = demo_graph();
    let (u, q) = expect_resolved(resolve_context("api", &index));
    assert_eq!(u, api);
    assert_eq!(q, "api");
    let (u, q) = expect_resolved(resolve_context("api/v1", &index));
    assert_eq!(u, v1);
    assert_eq!(q, "api/v1");
}

#[test]
fn global_names_the_root() {
    let (index, _, _, _) = demo_graph();
    let (u, q) = expect_resolved(resolve_context("global", &index));
    assert_eq!(u, GLOBAL_PROJECT_UUID);
    assert_eq!(q, "global");
    let (u, q) = expect_resolved(resolve_context("global/api", &index));
    assert_eq!(q, "global/api");
    assert!(index.get_entry(u).is_some());
}

#[test]
fn parent_segment_steps_back_up() {
    let (index, api, _, _) = demo_graph();
    // a context that names a child and steps back resolves like the plain one
    let (u1, q1) = expect_resolved(resolve_context("api/v1/..", &index));
    let (u2, q2) = expect_resolved(resolve_context("api", &index));
    assert_eq!(u1, u2);
    assert_eq!(u1, api);
    assert_eq!(q1, q2);
    assert!(matches!(
        resolve_context("global/..", &index),
        Err(ContextError::AlreadyAtRoot)
    ));
}

#[test]
fn empty_context_is_rejected() {
    let (index, _, _, _) = demo_graph();
    assert!(matches!(resolve_context("", &index), Err(ContextError::EmptyContext)));
    assert!(matches!(resolve_context("//", &index), Err(ContextError::EmptyContext)));
}

#[test]
fn unknown_names_are_reported_per_position() {
    let (index, _, _, _) = demo_graph();
    assert!(matches!(
        resolve_context("nope", &index),
        Err(ContextError::RootProjectNotFound { name }) if name == "nope"
    ));
    match resolve_context("api/nope", &index) {
        Err(ContextError::ChildProjectNotFound { child_name, parent_name }) => {
            assert_eq!(child_name, "nope");
            assert_eq!(parent_name, "api");
        }
        _ => panic!("expected a missing-child error"),
    }
}

#[test]
fn special_tokens_are_rejected_after_the_first_segment() {
    let (index, _, _, _) = demo_graph();
    assert!(matches!(
        resolve_context("api/**", &index),
        Err(ContextError::GlobalRecentNotAtStart)
    ));
    assert!(matches!(
        resolve_context("api/.", &index),
        Err(ContextError::LocalPathNotAtStart)
    ));
    assert!(matches!(
        resolve_context("api/_", &index),
        Err(ContextError::LocalPathNotAtStart)
    ));
}

#[test]
fn recent_token_uses_the_global_last_used() {
    let (mut index, _, v1, _) = demo_graph();
    assert!(matches!(
        resolve_context("**", &index),
        Err(ContextError::NoLastUsedProject)
    ));
    index.set_last_used(v1);
    let (u, q) = expect_resolved(resolve_context("**", &index));
    assert_eq!(u, v1);
    assert_eq!(q, "v1");
}

#[test]
fn local_project_token_pauses_for_the_filesystem() {
    let (index, api, _, _) = demo_graph();
    let outcome = resolve_context(".", &index).unwrap();
    let (machine, query) = match outcome {
        ContextOutcome::NeedsInput(m, q) => (m, q),
        _ => panic!("expected a filesystem query"),
    };
    assert!(matches!(query, ContextQuery::LocalProject { search_up: true }));
    let (u, q) = expect_resolved(machine.resume(ContextReply::LocalProject(Some(api)), &index));
    assert_eq!(u, api);
    assert_eq!(q, "api");
    // not found from the filesystem
    let outcome = resolve_context("_", &index).unwrap();
    match outcome {
        ContextOutcome::NeedsInput(m, ContextQuery::LocalProject { search_up: false }) => {
            assert!(matches!(
                m.resume(ContextReply::LocalProject(None), &index),
                Err(ContextError::ProjectNotFoundInCwd)
            ));
        }
        _ => panic!("expected a filesystem query"),
    }
}

#[test]
fn star_serves_the_cached_child_when_valid() {
    let (index, api, v1, _) = demo_graph();
    let outcome = resolve_context("api/*", &index).unwrap();
    let (machine, query) = match outcome {
        ContextOutcome::NeedsInput(m, q) => (m, q),
        _ => panic!("expected a cache query"),
    };
    match query {
        ContextQuery::LastUsedChild { parent_uuid, parent_path } => {
            assert_eq!(parent_uuid, api);
            assert_eq!(parent_path, "/srv/api");
        }
        _ => panic!("expected a cache query"),
    }
    let (u, q) = expect_resolved(machine.resume(ContextReply::LastUsedChild(Some(v1)), &index));
    assert_eq!(u, v1);
    assert_eq!(q, "api/v1");
}

#[test]
fn star_falls_back_to_selection_on_cache_miss() {
    let (index, api, _, v2) = demo_graph();
    let outcome = resolve_context("api/*", &index).unwrap();
    let machine = match outcome {
        ContextOutcome::NeedsInput(m, _) => m,
        _ => panic!("expected a cache query"),
    };
    // an empty cache falls back to the interactive selection
    let outcome = machine.resume(ContextReply::LastUsedChild(None), &index).unwrap();
    let (machine, candidates) = match outcome {
        ContextOutcome::NeedsInput(m, ContextQuery::SelectChild { parent_uuid, candidates, .. }) => {
            assert_eq!(parent_uuid, api);
            (m, candidates)
        }
        _ => panic!("expected a selection query"),
    };
    assert_eq!(candidates, vec!["v1".to_owned(), "v2".to_owned()]);
    let (u, q) = expect_resolved(machine.resume(ContextReply::SelectChild(Some(1)), &index));
    assert_eq!(u, v2);
    assert_eq!(q, "api/v2");
}

#[test]
fn declined_selection_is_a_cancellation() {
    let (index, _, _, _) = demo_graph();
    let machine = match resolve_context("api/*", &index).unwrap() {
        ContextOutcome::NeedsInput(m, _) => m,
        _ => panic!("expected a cache query"),
    };
    let machine = match machine.resume(ContextReply::LastUsedChild(None), &index).unwrap() {
        ContextOutcome::NeedsInput(m, _) => m,
        _ => panic!("expected a selection query"),
    };
    assert!(matches!(
        machine.resume(ContextReply::SelectChild(None), &index),
        Err(ContextError::Cancelled)
    ));
}

#[test]
fn star_without_children_fails() {
    let (index, _, _, _) = demo_graph();
    let machine = match resolve_context("api/v1/*", &index).unwrap() {
        ContextOutcome::NeedsInput(m, _) => m,
        _ => panic!("expected a cache query"),
    };
    assert!(matches!(
        machine.resume(ContextReply::LastUsedChild(None), &index),
        Err(ContextError::NoLastUsedChild { parent_name }) if parent_name == "v1"
    ));
}

#[test]
fn last_used_updates_cover_every_ancestor() {
    let (index, api, v1, _) = demo_graph();
    let updates = plan_last_used_updates(v1, &index);
    // bottom-up: api records v1, the root records api
    assert_eq!(updates.len(), 2);
    assert_eq!(updates[0], ("/srv/api".to_owned(), v1));
    assert_eq!(updates[1], ("/cfg".to_owned(), api));
    assert!(plan_last_used_updates(GLOBAL_PROJECT_UUID, &index).is_empty());
}

#[test]
fn local_project_not_found_walking_up_has_its_own_error() {
    let (index, _, _, _) = demo_graph();
    match resolve_context(".", &index).unwrap() {
        ContextOutcome::NeedsInput(m, _) => {
            assert!(matches!(
                m.resume(ContextReply::LocalProject(None), &index),
                Err(ContextError::ProjectNotFoundFromPath)
            ));
        }
        _ => panic!("expected a filesystem query"),
    }
}

#[test]
fn broken_parent_pointers_surface_during_resolution() {
    let mut index = GlobalIndex::from_entries(
        vec![
            (0u128, IndexEntry { name: "global".to_owned(), path: "/cfg".to_owned(), parent: None }),
            (5u128, IndexEntry { name: "a".to_owned(), path: "/a".to_owned(), parent: Some(9) }),
        ],
        None,
    );
    // `a` dangles; reach it through the last-used shortcut and step up
    index.set_last_used(5);
    assert!(matches!(
        resolve_context("**/..", &index),
        Err(ContextError::Index(IndexError::BrokenParentLink {
            child_uuid: 5,
            missing_parent_uuid: 9,
        }))
    ));
}

#[test]
fn project_names_exclude_separators_and_reserved_tokens() {
    assert!(is_valid_project_name("api"));
    assert!(is_valid_project_name("my-app_2"));
    assert!(!is_valid_project_name(""));
    assert!(!is_valid_project_name("a/b"));
    assert!(!is_valid_project_name("a\\b"));
    assert!(!is_valid_project_name("global"));
    assert!(!is_valid_project_name("GLOBAL"));
    assert!(!is_valid_project_name("."));
    assert!(!is_valid_project_name(".."));
    assert!(!is_valid_project_name("*"));
    assert!(!is_valid_project_name("_"));
    assert!(!is_valid_project_name("**"));
}

#[test]
fn selection_out_of_range_is_a_cancellation() {
    let (index, _, _, _) = demo_graph();
    let machine = match resolve_context("api/*", &index).unwrap() {
        ContextOutcome::NeedsInput(m, _) => m,
        _ => panic!("expected a cache query"),
    };
    let machine = match machine.resume(ContextReply::LastUsedChild(None), &index).unwrap() {
        ContextOutcome::NeedsInput(m, _) => m,
        _ => panic!("expected a selection query"),
    };
    assert!(matches!(
        machine.resume(ContextReply::SelectChild(Some(99)), &index),
        Err(ContextError::Cancelled)
    ));
}

#[test]
fn stale_cached_child_falls_back_to_selection() {
    let (index, api, _, _) = demo_graph();
    let machine = match resolve_context("api/*", &index).unwrap() {
        ContextOutcome::NeedsInput(m, _) => m,
        _ => panic!("expected a cache query"),
    };
    // an identity that is no longer a child of `api` counts as a miss
    let outcome = machine.resume(ContextReply::LastUsedChild(Some(api)), &index).unwrap();
    assert!(matches!(
        outcome,
        ContextOutcome::NeedsInput(_, ContextQuery::SelectChild { .. })
    ));
}
