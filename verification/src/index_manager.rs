//! Mutations of the global project graph: registration, renaming,
//! re-parenting and removal, each proved to keep the graph invariant.

use vstd::prelude::*;

use crate::graph::{
    dom_fuel, graph_inv, has_child_named, has_other_entry_named, lemma_add_preserves_inv,
    lemma_remove_preserves_inv, lemma_update_same_parent_preserves_inv, removal_closed,
    root_steps, spec_remove_map, vec_contains_u128, walk_hits, GlobalIndex, WalkEnd,
};
use crate::models::{IndexEntry, IndexEntryV, ProjectRef};
use crate::smap::DeepClone;

pub use crate::graph::GLOBAL_PROJECT_UUID;

verus! {

/// What a graph mutation can fail with.
#[derive(Debug)]
pub enum IndexError {
    /// Another child of the same parent already carries the name.
    NameAlreadyExists { name: String },
    /// An entry points at a parent that is not in the graph.
    BrokenParentLink { child_uuid: u128, missing_parent_uuid: u128 },
    /// The named identity is not in the graph.
    UuidNotFound { uuid: u128 },
    /// The operation would create, or ran into, a parent cycle.
    CycleDetected { uuid: u128 },
    /// The root project cannot be re-parented.
    CannotModifyRoot,
}

/// Draws a fresh 128-bit identity.
///
/// Relies on `uuid::Uuid::new_v4`: the value is random, so nothing is
/// promised of it; callers check freshness themselves.
#[verifier::external_body]
fn mint_uuid() -> u128 {
    uuid::Uuid::new_v4().as_u128()
}

/// Ensures the root entry exists, creating it at the given configuration
/// directory when missing. Returns whether it was created, so that the
/// caller can write the root's files and persist the graph.
pub fn ensure_global_project(index: &mut GlobalIndex, config_dir: &str) -> (created: bool)
    requires
        old(index).wf(),
    ensures
        final(index).wf(),
        final(index).spec_last_used() == old(index).spec_last_used(),
        created == !old(index).projects_map().contains_key(GLOBAL_PROJECT_UUID),
        created ==> final(index).projects_map() == old(index).projects_map().insert(
            GLOBAL_PROJECT_UUID,
            IndexEntryV { name: "global"@, path: config_dir@, parent: None },
        ),
        !created ==> *final(index) == *old(index),
        graph_inv(old(index).projects_map()) ==> graph_inv(final(index).projects_map()),
{
    let ghost m = index.projects_map();
    if index.contains_project(GLOBAL_PROJECT_UUID) {
        return false;
    }
    let entry = IndexEntry { name: "global".to_owned(), path: config_dir.to_owned(), parent: None };
    let ghost ev = entry.deep_view();
    index.insert_pair(GLOBAL_PROJECT_UUID, entry);
    proof {
        if graph_inv(m) {
            let m2 = m.insert(GLOBAL_PROJECT_UUID, ev);
            broadcast use vstd::set::group_set_axioms;

            assert(m2.dom() =~= m.dom().insert(GLOBAL_PROJECT_UUID));
            assert forall|x: u128| #[trigger] m2.contains_key(x) implies root_steps(
                m2,
                x,
                dom_fuel(m2),
            ) is Some by {
                if x == GLOBAL_PROJECT_UUID {
                    assert(root_steps(m2, x, 0) == Some(0nat));
                    crate::graph::lemma_root_steps_canonical(m2, x, 0, 0);
                } else {
                    let d = root_steps(m, x, dom_fuel(m))->0;
                    crate::graph::lemma_walk_misses_absent(
                        m,
                        x,
                        d,
                        dom_fuel(m),
                        GLOBAL_PROJECT_UUID,
                    );
                    crate::graph::lemma_root_steps_insert_untouched(
                        m,
                        x,
                        d,
                        dom_fuel(m),
                        GLOBAL_PROJECT_UUID,
                        ev,
                    );
                    crate::graph::lemma_root_steps_canonical(m2, x, d, dom_fuel(m));
                }
            }
        }
    }
    true
}

/// Adds a project under the resolved parent (the root when none is given),
/// minting a fresh identity.
///
/// Fails with `NameAlreadyExists` exactly when a sibling under that parent
/// already carries the name, and with `UuidNotFound` exactly when the parent
/// itself is not registered; the graph is unchanged on failure.
pub fn add_project_to_index(
    index: &mut GlobalIndex,
    name: String,
    path: String,
    parent_uuid: Option<u128>,
) -> (r: Result<u128, IndexError>)
    requires
        old(index).wf(),
    ensures
        final(index).wf(),
        final(index).spec_last_used() == old(index).spec_last_used(),
        ({
            let m = old(index).projects_map();
            let fp = match parent_uuid {
                Some(p) => p,
                None => GLOBAL_PROJECT_UUID,
            };
            &&& match r {
                Ok(u) => !m.contains_key(u) && u != GLOBAL_PROJECT_UUID && m.contains_key(fp)
                    && !has_child_named(m, Some(fp), name@) && final(index).projects_map()
                    == m.insert(u, IndexEntryV { name: name@, path: path@, parent: Some(fp) }),
                Err(IndexError::UuidNotFound { uuid }) => uuid == fp && !m.contains_key(fp)
                    && *final(index) == *old(index),
                Err(IndexError::NameAlreadyExists { name: taken }) => taken@ == name@
                    && m.contains_key(fp) && has_child_named(m, Some(fp), name@) && *final(index)
                    == *old(index),
                Err(_) => false,
            }
            &&& (m.contains_key(fp) && !has_child_named(m, Some(fp), name@)) <==> r is Ok
            &&& (graph_inv(m) ==> graph_inv(final(index).projects_map()))
        }),
{
    let ghost m = index.projects_map();
    let final_parent_uuid = match parent_uuid {
        Some(p) => p,
        None => GLOBAL_PROJECT_UUID,
    };
    if !index.contains_project(final_parent_uuid) {
        return Err(IndexError::UuidNotFound { uuid: final_parent_uuid });
    }
    if index.find_child_by_name(final_parent_uuid, name.as_str()).is_some() {
        return Err(IndexError::NameAlreadyExists { name });
    }
    let new_uuid = fresh_uuid(index);
    let entry = IndexEntry { name, path, parent: Some(final_parent_uuid) };
    let ghost ev = entry.deep_view();
    index.insert_pair(new_uuid, entry);
    proof {
        if graph_inv(m) {
            lemma_add_preserves_inv(m, new_uuid, ev, final_parent_uuid);
        }
    }
    Ok(new_uuid)
}

/// Picks an identity that is not yet in the graph and is not the root's.
///
/// A few random draws are tried first; if all collide, the smallest unused
/// identity above the largest registered one is taken.
fn fresh_uuid(index: &GlobalIndex) -> (r: u128)
    requires
        index.wf(),
    ensures
        !index.projects_map().contains_key(r),
        r != GLOBAL_PROJECT_UUID,
{
    let mut attempts: usize = 0;
    while attempts < 8
        invariant
            index.wf(),
        decreases 8 - attempts,
    {
        let candidate = mint_uuid();
        if candidate != GLOBAL_PROJECT_UUID && !index.contains_project(candidate) {
            return candidate;
        }
        attempts += 1;
    }
    // all random draws collided: take the successor of the largest key,
    // which no entry carries
    let ghost s = index.kv();
    let entries = index.entries();
    let mut max_key: u128 = 0;
    let mut i: usize = 0;
    while i < entries.len()
        invariant
            i <= entries.len(),
            s == index.kv(),
            entries.deep_view() == s,
            index.wf(),
            forall|j: int| 0 <= j < i ==> (#[trigger] s[j]).0 < max_key,
        decreases entries.len() - i,
    {
        proof {
            assert(s[i as int] == entries@[i as int].deep_view());
        }
        if entries[i].0 >= max_key {
            if entries[i].0 == u128::MAX {
                // the key space cannot be full: fall back to a linear probe
                let r = probe_unused(index);
                return r;
            }
            max_key = entries[i].0 + 1;
            proof {
                assert(s[i as int].0 < max_key);
            }
        }
        i += 1;
    }
    let candidate = if max_key == 0 {
        1
    } else {
        max_key
    };
    proof {
        if index.projects_map().contains_key(candidate) {
            crate::smap::lemma_assoc_contains(s, candidate);
            let j = choose|j: int| 0 <= j < s.len() && (#[trigger] s[j]).0 == candidate;
            assert(s[j].0 < max_key);
            assert(false);
        }
    }
    candidate
}

/// Probes identities upward from 1 until an unused one is found: among the
/// first `n + 1` candidates one must be free, since only `n` are taken.
fn probe_unused(index: &GlobalIndex) -> (r: u128)
    requires
        index.wf(),
    ensures
        !index.projects_map().contains_key(r),
        r != GLOBAL_PROJECT_UUID,
{
    let ghost m = index.projects_map();
    let n = index.project_count();
    proof {
        crate::smap::lemma_assoc_len(index.kv());
    }
    let bound: u128 = n as u128;
    let mut c: u128 = 1;
    while c <= bound
        invariant
            index.wf(),
            m == index.projects_map(),
            m.dom().finite(),
            m.dom().len() <= bound,
            bound < u128::MAX - 1,
            1 <= c <= bound + 1,
            forall|x: u128| 1 <= x < c ==> m.contains_key(x),
        decreases bound + 1 - c,
    {
        if !index.contains_project(c) {
            return c;
        }
        c += 1;
    }
    // c == bound + 1: these bound + 1 candidates cannot all be taken
    if !index.contains_project(c) {
        return c;
    }
    proof {
        broadcast use vstd::set::group_set_axioms;

        let hi: int = c as int + 1;
        let taken = Set::new(|x: u128| 1 <= x && (x as int) < hi);
        assert(taken.subset_of(m.dom())) by {
            assert forall|x: u128| taken.contains(x) implies m.dom().contains(x) by {
                if x < c {
                } else {
                    assert(x == c);
                }
            }
        }
        lemma_u128_range_len(1, hi);
        vstd::set_lib::lemma_len_subset(taken, m.dom());
        assert(false);
    }
    // unreachable: the probe above must have found a free identity
    GLOBAL_PROJECT_UUID
}

/// The number of identities in a contiguous range.
proof fn lemma_u128_range_len(lo: u128, hi: int)
    requires
        lo as int <= hi,
        hi <= u128::MAX as int + 1,
    ensures
        Set::new(|x: u128| lo <= x && (x as int) < hi).finite(),
        Set::new(|x: u128| lo <= x && (x as int) < hi).len() == hi - lo,
    decreases hi - lo,
{
    broadcast use vstd::set::group_set_axioms;

    let s = Set::new(|x: u128| lo <= x && (x as int) < hi);
    if hi == lo as int {
        assert(s =~= Set::<u128>::empty());
    } else {
        lemma_u128_range_len(lo, hi - 1);
        let prev = Set::new(|x: u128| lo <= x && (x as int) < hi - 1);
        assert(s =~= prev.insert((hi - 1) as u128));
        assert(!prev.contains((hi - 1) as u128));
    }
}

/// Renames a project. Only the entry's name changes: its identity and its
/// parent stay as they were.
///
/// Fails with `NameAlreadyExists` exactly when another child of the current
/// parent carries the new name, and with `UuidNotFound` exactly when the
/// identity is unknown; the graph is unchanged on failure.
pub fn rename_project(index: &mut GlobalIndex, uuid: u128, new_name: &str) -> (r: Result<
    (),
    IndexError,
>)
    requires
        old(index).wf(),
    ensures
        final(index).wf(),
        final(index).spec_last_used() == old(index).spec_last_used(),
        ({
            let m = old(index).projects_map();
            &&& match r {
                Ok(()) => m.contains_key(uuid) && !has_other_entry_named(
                    m,
                    uuid,
                    m[uuid].parent,
                    new_name@,
                ) && final(index).projects_map() == m.insert(
                    uuid,
                    IndexEntryV {
                        name: new_name@,
                        path: m[uuid].path,
                        parent: m[uuid].parent,
                    },
                ),
                Err(IndexError::UuidNotFound { uuid: u }) => u == uuid && !m.contains_key(uuid)
                    && *final(index) == *old(index),
                Err(IndexError::NameAlreadyExists { name: taken }) => taken@ == new_name@
                    && m.contains_key(uuid) && has_other_entry_named(
                    m,
                    uuid,
                    m[uuid].parent,
                    new_name@,
                ) && *final(index) == *old(index),
                Err(_) => false,
            }
            &&& (r is Ok ==> final(index).projects_map()[uuid].parent == m[uuid].parent)
            &&& (graph_inv(m) ==> graph_inv(final(index).projects_map()))
        }),
{
    let ghost m = index.projects_map();
    let (current_parent, current_path) = match index.get_entry(uuid) {
        Some(e) => (e.parent, e.path.deep_clone()),
        None => {
            return Err(IndexError::UuidNotFound { uuid });
        },
    };
    if index.exists_other_entry(uuid, current_parent, new_name) {
        return Err(IndexError::NameAlreadyExists { name: new_name.to_owned() });
    }
    let entry = IndexEntry { name: new_name.to_owned(), path: current_path, parent: current_parent };
    let ghost ev = entry.deep_view();
    index.insert_pair(uuid, entry);
    proof {
        if graph_inv(m) {
            lemma_update_same_parent_preserves_inv(m, uuid, ev);
        }
    }
    Ok(())
}

/// Moves a project under a new parent. Only the entry's parent changes.
///
/// Rejected: re-parenting the root; unknown identities; a new parent that is
/// the project itself or one of its descendants (the walk from the new
/// parent toward the root would meet the project); a sibling-name collision
/// under the new parent. The graph is unchanged on failure.
pub fn link_project(index: &mut GlobalIndex, uuid: u128, new_parent_uuid: u128) -> (r: Result<
    (),
    IndexError,
>)
    requires
        old(index).wf(),
    ensures
        final(index).wf(),
        final(index).spec_last_used() == old(index).spec_last_used(),
        ({
            let m = old(index).projects_map();
            let fuel = dom_fuel(m);
            &&& match r {
                Ok(()) => uuid != GLOBAL_PROJECT_UUID && m.contains_key(uuid) && m.contains_key(
                    new_parent_uuid,
                ) && !walk_hits(m, new_parent_uuid, uuid, fuel) && !has_other_entry_named(
                    m,
                    uuid,
                    Some(new_parent_uuid),
                    m[uuid].name,
                ) && final(index).projects_map() == m.insert(
                    uuid,
                    IndexEntryV {
                        name: m[uuid].name,
                        path: m[uuid].path,
                        parent: Some(new_parent_uuid),
                    },
                ),
                Err(IndexError::CannotModifyRoot) => uuid == GLOBAL_PROJECT_UUID && *final(index)
                    == *old(index),
                Err(IndexError::UuidNotFound { uuid: u }) => uuid != GLOBAL_PROJECT_UUID && ((u
                    == uuid && !m.contains_key(uuid)) || (u == new_parent_uuid && m.contains_key(
                    uuid,
                ) && !m.contains_key(new_parent_uuid))) && *final(index) == *old(index),
                Err(IndexError::CycleDetected { uuid: u }) => uuid != GLOBAL_PROJECT_UUID
                    && m.contains_key(uuid) && m.contains_key(new_parent_uuid) && (graph_inv(m)
                    ==> walk_hits(m, new_parent_uuid, uuid, fuel)) && *final(index) == *old(
                    index,
                ),
                Err(IndexError::NameAlreadyExists { name: taken }) => m.contains_key(uuid)
                    && taken@ == m[uuid].name && has_other_entry_named(
                    m,
                    uuid,
                    Some(new_parent_uuid),
                    m[uuid].name,
                ) && *final(index) == *old(index),
                Err(IndexError::BrokenParentLink { child_uuid, missing_parent_uuid }) =>
                    !m.contains_key(missing_parent_uuid) && m.contains_key(child_uuid)
                    && m[child_uuid].parent == Some(missing_parent_uuid) && *final(index) == *old(
                    index,
                ),
            }
            &&& (walk_hits(m, new_parent_uuid, uuid, fuel) ==> r is Err && *final(index) == *old(
                index,
            ))
            &&& (graph_inv(m) && uuid != GLOBAL_PROJECT_UUID && m.contains_key(uuid)
                && m.contains_key(new_parent_uuid) && !walk_hits(m, new_parent_uuid, uuid, fuel)
                && !has_other_entry_named(m, uuid, Some(new_parent_uuid), m[uuid].name) ==> r
                is Ok)
            &&& (graph_inv(m) ==> graph_inv(final(index).projects_map()))
        }),
{
    let ghost m = index.projects_map();
    let ghost fuel = dom_fuel(m);
    if uuid == GLOBAL_PROJECT_UUID {
        return Err(IndexError::CannotModifyRoot);
    }
    let (current_name, current_path) = match index.get_entry(uuid) {
        Some(e) => (e.name.deep_clone(), e.path.deep_clone()),
        None => {
            return Err(IndexError::UuidNotFound { uuid });
        },
    };
    if !index.contains_project(new_parent_uuid) {
        proof {
            if walk_hits(m, new_parent_uuid, uuid, fuel) {
                assert(new_parent_uuid == uuid || m.contains_key(new_parent_uuid));
            }
        }
        return Err(IndexError::UuidNotFound { uuid: new_parent_uuid });
    }
    match index.ancestry_walk(new_parent_uuid, Some(uuid)) {
        WalkEnd::Hit => {
            return Err(IndexError::CycleDetected { uuid });
        },
        WalkEnd::Repeat(_) => {
            return Err(IndexError::CycleDetected { uuid });
        },
        WalkEnd::Broken { child, missing } => {
            return Err(IndexError::BrokenParentLink {
                child_uuid: child,
                missing_parent_uuid: missing,
            });
        },
        WalkEnd::Root => {},
    }
    if index.exists_other_entry(uuid, Some(new_parent_uuid), current_name.as_str()) {
        return Err(IndexError::NameAlreadyExists { name: current_name });
    }
    let entry = IndexEntry {
        name: current_name,
        path: current_path,
        parent: Some(new_parent_uuid),
    };
    let ghost ev = entry.deep_view();
    index.insert_pair(uuid, entry);
    proof {
        if graph_inv(m) {
            crate::graph::lemma_link_preserves_inv(m, uuid, new_parent_uuid, ev);
        }
    }
    Ok(())
}

/// Deletes the listed identities from the graph; the root entry is never
/// removed. With `reparent_orphans`, every surviving entry whose parent was
/// removed is re-pointed at the root. Returns how many entries were removed.
pub fn remove_from_index(
    index: &mut GlobalIndex,
    uuids_to_remove: &Vec<u128>,
    reparent_orphans: bool,
) -> (count: usize)
    requires
        old(index).wf(),
    ensures
        final(index).wf(),
        final(index).spec_last_used() == old(index).spec_last_used(),
        ({
            let m = old(index).projects_map();
            let rm = uuids_to_remove@.to_set().remove(GLOBAL_PROJECT_UUID);
            &&& final(index).projects_map() == spec_remove_map(m, rm, reparent_orphans)
            &&& count == m.dom().intersect(rm).len()
            &&& (graph_inv(m) && (reparent_orphans || removal_closed(m, rm)) ==> graph_inv(
                final(index).projects_map(),
            ))
        }),
{
    broadcast use vstd::set::group_set_axioms;

    let ghost m = index.projects_map();
    let ghost rm = uuids_to_remove@.to_set().remove(GLOBAL_PROJECT_UUID);
    proof {
        index.lemma_dom_finite();
        let ps0 = uuids_to_remove@.take(0).to_set().remove(GLOBAL_PROJECT_UUID);
        assert(uuids_to_remove@.take(0) =~= Seq::<u128>::empty());
        assert(ps0 =~= Set::<u128>::empty());
        assert(m.dom().intersect(ps0) =~= Set::<u128>::empty());
        assert(index.projects_map() =~= spec_remove_map(m, ps0, false));
    }
    let mut count: usize = 0;
    let mut i: usize = 0;
    while i < uuids_to_remove.len()
        invariant
            i <= uuids_to_remove.len(),
            index.wf(),
            m.dom().finite(),
            count <= i,
            index.spec_last_used() == old(index).spec_last_used(),
            index.projects_map() == spec_remove_map(
                m,
                uuids_to_remove@.take(i as int).to_set().remove(GLOBAL_PROJECT_UUID),
                false,
            ),
            count == m.dom().intersect(
                uuids_to_remove@.take(i as int).to_set().remove(GLOBAL_PROJECT_UUID),
            ).len(),
        decreases uuids_to_remove.len() - i,
    {
        let ghost ps = uuids_to_remove@.take(i as int).to_set().remove(GLOBAL_PROJECT_UUID);
        let ghost ps2 = uuids_to_remove@.take(i + 1).to_set().remove(GLOBAL_PROJECT_UUID);
        let id = uuids_to_remove[i];
        proof {
            assert(uuids_to_remove@.take(i + 1) =~= uuids_to_remove@.take(i as int).push(id));
            assert(uuids_to_remove@.take(i as int).push(id).to_set() =~= uuids_to_remove@.take(
                i as int,
            ).to_set().insert(id)) by {
                let pushed = uuids_to_remove@.take(i as int).push(id);
                assert forall|x: u128| pushed.to_set().contains(x) <==> uuids_to_remove@.take(
                    i as int,
                ).to_set().insert(id).contains(x) by {
                    if pushed.to_set().contains(x) {
                        let j = choose|j: int| 0 <= j < pushed.len() && pushed[j] == x;
                        if j < i {
                            assert(uuids_to_remove@.take(i as int)[j] == x);
                        }
                    }
                    if uuids_to_remove@.take(i as int).to_set().contains(x) {
                        let j = choose|j: int|
                            0 <= j < i && uuids_to_remove@.take(i as int)[j] == x;
                        assert(pushed[j] == x);
                    }
                    if x == id {
                        assert(pushed[pushed.len() - 1] == x);
                    }
                }
            }
            if id == GLOBAL_PROJECT_UUID {
                assert(ps2 =~= ps);
            }
        }
        if id != GLOBAL_PROJECT_UUID {
            proof {
                assert(ps2 =~= ps.insert(id));
            }
            match index.position_of(id) {
                Some(pos) => {
                    let ghost s_cur = index.kv();
                    proof {
                        crate::smap::lemma_assoc_last_witness(s_cur, id, pos as int);
                        crate::smap::lemma_assoc_remove(s_cur, pos as int);
                    }
                    index.remove_pair(pos);
                    proof {
                        assert(index.projects_map() == crate::smap::assoc_map(s_cur).remove(id));
                        assert(index.projects_map() =~= spec_remove_map(m, ps2, false));
                        // the removed identity is a fresh member of the
                        // intersection
                        assert(m.contains_key(id) && !ps.contains(id)) by {
                            assert(spec_remove_map(m, ps, false).contains_key(id));
                        }
                        assert(m.dom().intersect(ps2) =~= m.dom().intersect(ps).insert(id));
                        assert(!m.dom().intersect(ps).contains(id));
                        vstd::set_lib::lemma_len_subset(m.dom().intersect(ps), m.dom());
                    }
                    count += 1;
                },
                None => {
                    proof {
                        assert(!spec_remove_map(m, ps, false).contains_key(id));
                        if m.contains_key(id) {
                            assert(ps.contains(id));
                            assert(ps2 =~= ps);
                        } else {
                            assert(m.dom().intersect(ps2) =~= m.dom().intersect(ps));
                        }
                        assert(index.projects_map() =~= spec_remove_map(m, ps2, false));
                    }
                },
            }
        } else {
            proof {
                assert(index.projects_map() =~= spec_remove_map(m, ps2, false));
            }
        }
        i += 1;
    }
    proof {
        assert(uuids_to_remove@.take(uuids_to_remove@.len() as int) =~= uuids_to_remove@);
    }
    if reparent_orphans {
        reparent_removed_orphans(index, uuids_to_remove, Ghost(m), Ghost(rm));
    } else {
        proof {
            assert(index.projects_map() =~= spec_remove_map(m, rm, false));
        }
    }
    proof {
        if graph_inv(m) && (reparent_orphans || removal_closed(m, rm)) {
            lemma_remove_preserves_inv(m, rm, reparent_orphans);
        }
    }
    count
}

/// Second pass of removal: re-points every survivor whose parent was removed
/// at the root.
fn reparent_removed_orphans(
    index: &mut GlobalIndex,
    uuids_to_remove: &Vec<u128>,
    Ghost(m): Ghost<Map<u128, IndexEntryV>>,
    Ghost(rm): Ghost<Set<u128>>,
)
    requires
        old(index).wf(),
        rm == uuids_to_remove@.to_set().remove(GLOBAL_PROJECT_UUID),
        old(index).projects_map() == spec_remove_map(m, rm, false),
    ensures
        final(index).wf(),
        final(index).spec_last_used() == old(index).spec_last_used(),
        final(index).projects_map() == spec_remove_map(m, rm, true),
{
    let ghost s1 = index.kv();
    let ghost m1 = index.projects_map();
    let total = index.project_count();
    let mut j: usize = 0;
    while j < total
        invariant
            j <= total,
            index.wf(),
            index.spec_last_used() == old(index).spec_last_used(),
            total == index.kv().len(),
            index.kv().len() == s1.len(),
            rm == uuids_to_remove@.to_set().remove(GLOBAL_PROJECT_UUID),
            m1 == crate::smap::assoc_map(s1),
            m1 == spec_remove_map(m, rm, false),
            crate::smap::assoc_distinct(s1),
            forall|l: int| 0 <= l < s1.len() ==> (#[trigger] index.kv()[l]).0 == s1[l].0,
            forall|l: int|
                j <= l < s1.len() ==> (#[trigger] index.kv()[l]).1 == s1[l].1,
            forall|l: int|
                0 <= l < j ==> (#[trigger] index.kv()[l]).1 == reparented_entry(s1[l].1, rm),
        decreases total - j,
    {
        proof {
            assert(index.kv()[j as int].0 == s1[j as int].0);
            assert(index.kv()[j as int].1 == s1[j as int].1);
        }
        let entries = index.entries();
        proof {
            assert(entries.deep_view() == index.kv());
            assert(entries@[j as int].deep_view() == index.kv()[j as int]);
        }
        let entry_uuid = entries[j].0;
        let orphaned = match entries[j].1.parent {
            Some(p) => p != GLOBAL_PROJECT_UUID && vec_contains_u128(uuids_to_remove, p),
            None => false,
        };
        if orphaned {
            let new_entry = IndexEntry {
                name: entries[j].1.name.deep_clone(),
                path: entries[j].1.path.deep_clone(),
                parent: Some(GLOBAL_PROJECT_UUID),
            };
            let ghost nv = new_entry.deep_view();
            proof {
                assert(nv == reparented_entry(s1[j as int].1, rm));
            }
            index.replace_pair(j, entry_uuid, new_entry);
            proof {
                assert forall|l: int| 0 <= l < s1.len() implies (#[trigger] index.kv()[l]).0
                    == s1[l].0 by {}
            }
        } else {
            proof {
                assert(index.kv()[j as int].1 == reparented_entry(s1[j as int].1, rm));
            }
        }
        j += 1;
    }
    proof {
        let s2 = index.kv();
        assert forall|l: int, l2: int| 0 <= l < l2 < s2.len() implies (#[trigger] s2[l]).0 != (
        #[trigger] s2[l2]).0 by {
            assert(s2[l].0 == s1[l].0);
            assert(s2[l2].0 == s1[l2].0);
        }
        let m2 = index.projects_map();
        let target = spec_remove_map(m, rm, true);
        assert forall|k: u128| #[trigger] m2.contains_key(k) || target.contains_key(k) implies
            m2.contains_key(k) && target.contains_key(k) && m2[k] == target[k] by {
            crate::smap::lemma_assoc_dom(s2, k);
            crate::smap::lemma_assoc_dom(s1, k);
            assert forall|l: int| 0 <= l < s2.len() implies ((#[trigger] s2[l]).0 == k <==> (
            s1[l]).0 == k) by {}
            if m2.contains_key(k) || target.contains_key(k) {
                if target.contains_key(k) {
                    assert(m1.contains_key(k));
                }
                assert(m1.contains_key(k) || m2.contains_key(k) ==> exists|l: int|
                    0 <= l < s1.len() && (#[trigger] s1[l]).0 == k);
                let l = choose|l: int| 0 <= l < s1.len() && (#[trigger] s1[l]).0 == k;
                assert forall|l2: int| l < l2 < s1.len() implies (#[trigger] s1[l2]).0 != k by {}
                assert forall|l2: int| l < l2 < s2.len() implies (#[trigger] s2[l2]).0 != k by {
                    assert(s2[l2].0 == s1[l2].0);
                }
                crate::smap::lemma_assoc_get(s1, l);
                assert(s2[l].0 == k);
                crate::smap::lemma_assoc_get(s2, l);
                assert(m1[k] == s1[l].1);
                assert(m2[k] == s2[l].1);
                assert(s2[l].1 == reparented_entry(s1[l].1, rm));
                assert(m1[k] == m[k]);
            }
        }
        assert(m2 =~= target);
    }
}

/// Collects the transitive descendants of an identity: exactly those entries
/// whose parent walk meets it, at any walk length.
pub fn get_all_descendants(index: &GlobalIndex, uuid: u128) -> (r: Vec<u128>)
    requires
        index.wf(),
    ensures
        ({
            let m = index.projects_map();
            &&& r@.no_duplicates()
            &&& forall|l: int|
                0 <= l < r@.len() ==> m.contains_key(#[trigger] r@[l]) && r@[l] != uuid
                    && walk_hits(m, r@[l], uuid, r@.len() as nat)
            &&& forall|x: u128, f: nat|
                m.contains_key(x) && x != uuid && #[trigger] walk_hits(m, x, uuid, f)
                    ==> r@.contains(x)
        }),
{
    broadcast use vstd::set::group_set_axioms;

    let ghost m = index.projects_map();
    let ghost s = index.kv();
    proof {
        index.lemma_dom_finite();
        index.lemma_pairs_authoritative();
    }
    let mut found: Vec<u128> = Vec::new();
    loop
        invariant
            index.wf(),
            m == index.projects_map(),
            s == index.kv(),
            m.dom().finite(),
            found@.no_duplicates(),
            forall|l: int|
                0 <= l < found@.len() ==> m.contains_key(#[trigger] found@[l]) && found@[l]
                    != uuid && walk_hits(m, found@[l], uuid, (l + 1) as nat),
        decreases m.dom().len() + 1 - found@.len(),
    {
        proof {
            found@.unique_seq_to_set();
            assert(found@.to_set().subset_of(m.dom())) by {
                assert forall|x: u128| found@.to_set().contains(x) implies m.dom().contains(
                    x,
                ) by {
                    let l = choose|l: int| 0 <= l < found@.len() && found@[l] == x;
                    assert(m.contains_key(found@[l]));
                }
            }
            vstd::set_lib::lemma_len_subset(found@.to_set(), m.dom());
        }
        let mut changed: bool = false;
        let ghost pass_start = found@;
        let entries = index.entries();
        let mut j: usize = 0;
        while j < entries.len()
            invariant
                j <= entries.len(),
                index.wf(),
                m == index.projects_map(),
                s == index.kv(),
                entries.deep_view() == s,
                m.dom().finite(),
                found@.no_duplicates(),
                forall|l: int|
                    0 <= l < found@.len() ==> m.contains_key(#[trigger] found@[l]) && found@[l]
                        != uuid && walk_hits(m, found@[l], uuid, (l + 1) as nat),
                !changed ==> found@ == pass_start,
                !changed ==> forall|l: int|
                    0 <= l < j ==> !addable(m, found@, uuid, (#[trigger] s[l]).0),
                found@.len() >= pass_start.len(),
                changed ==> found@.len() >= pass_start.len() + 1,
            decreases entries.len() - j,
        {
            proof {
                assert(s[j as int] == entries@[j as int].deep_view());
                index.lemma_pairs_authoritative();
            }
            let node = entries[j].0;
            let candidate_parent = entries[j].1.parent;
            let wanted = match candidate_parent {
                Some(p) => p == uuid || vec_contains_u128(&found, p),
                None => false,
            };
            if wanted && node != uuid && !vec_contains_u128(&found, node) {
                let ghost before = found@;
                found.push(node);
                changed = true;
                proof {
                    assert(found@ == before.push(node));
                    assert forall|l: int| 0 <= l < found@.len() implies m.contains_key(
                        #[trigger] found@[l],
                    ) && found@[l] != uuid && walk_hits(m, found@[l], uuid, (l + 1) as nat) by {
                        if l < before.len() {
                            assert(found@[l] == before[l]);
                        } else {
                            assert(found@[l] == node);
                            match m[node].parent {
                                Some(p) => {
                                    if p == uuid {
                                        assert(walk_hits(m, p, uuid, l as nat));
                                    } else {
                                        let lp = choose|lp: int|
                                            0 <= lp < before.len() && before[lp] == p;
                                        assert(walk_hits(m, p, uuid, (lp + 1) as nat));
                                        crate::graph::lemma_walk_hits_mono(
                                            m,
                                            p,
                                            uuid,
                                            (lp + 1) as nat,
                                            l as nat,
                                        );
                                    }
                                    assert(walk_hits(m, node, uuid, (l + 1) as nat));
                                },
                                None => {
                                    assert(false);
                                },
                            }
                        }
                    }
                }
            }
            j += 1;
        }
        proof {
            found@.unique_seq_to_set();
            assert(found@.to_set().subset_of(m.dom())) by {
                assert forall|x: u128| found@.to_set().contains(x) implies m.dom().contains(
                    x,
                ) by {
                    let l = choose|l: int| 0 <= l < found@.len() && found@[l] == x;
                    assert(m.contains_key(found@[l]));
                }
            }
            vstd::set_lib::lemma_len_subset(found@.to_set(), m.dom());
        }
        if !changed {
            proof {
                assert forall|x: u128, f: nat|
                    m.contains_key(x) && x != uuid && #[trigger] walk_hits(m, x, uuid, f)
                    implies found@.contains(x) by {
                    assert forall|y: u128|
                        m.contains_key(y) && y != uuid && (match (#[trigger] m[y]).parent {
                            Some(p) => p == uuid || found@.contains(p),
                            None => false,
                        }) implies found@.contains(y) by {
                        crate::smap::lemma_assoc_contains(s, y);
                        let l = choose|l: int| 0 <= l < s.len() && (#[trigger] s[l]).0 == y;
                        index.lemma_pairs_authoritative();
                        assert(!addable(m, found@, uuid, y));
                    }
                    crate::graph::lemma_descendants_complete(m, found@, uuid, x, f);
                }
                assert forall|l: int| 0 <= l < found@.len() implies walk_hits(
                    m,
                    #[trigger] found@[l],
                    uuid,
                    found@.len() as nat,
                ) by {
                    crate::graph::lemma_walk_hits_mono(
                        m,
                        found@[l],
                        uuid,
                        (l + 1) as nat,
                        found@.len() as nat,
                    );
                }
            }
            return found;
        }
    }
}

/// Whether a pass of the descendant search would pick the identity up.
pub open spec fn addable(
    m: Map<u128, IndexEntryV>,
    found: Seq<u128>,
    anc: u128,
    y: u128,
) -> bool {
    m.contains_key(y) && y != anc && !found.contains(y) && match m[y].parent {
        Some(p) => p == anc || found.contains(p),
        None => false,
    }
}

/// Classifies the parent walk from an identity: `Ok(None)` exactly when it
/// reaches a parentless entry; `Ok(Some(u))` when the walk runs into a
/// cycle, with `u` the first identity encountered twice (the distinct
/// identities visited before it witness that); `BrokenParentLink` when the
/// walk itself meets a dangling pointer.
pub fn find_cycle_from_node(start_node_uuid: u128, index: &GlobalIndex) -> (r: Result<
    Option<u128>,
    IndexError,
>)
    requires
        index.wf(),
    ensures
        ({
            let m = index.projects_map();
            let fuel = dom_fuel(m);
            &&& ((r matches Ok(o) && o is None) <==> root_steps(m, start_node_uuid, fuel) is Some)
            &&& match r {
                Ok(None) => true,
                Ok(Some(u)) => m.contains_key(u) && walk_hits(m, start_node_uuid, u, fuel)
                    && m[u].parent is Some && walk_hits(m, m[u].parent->0, u, fuel) && (exists|
                    vs: Seq<u128>,
                |
                    crate::graph::is_walk_prefix(m, start_node_uuid, vs) && vs.no_duplicates()
                        && (#[trigger] m[vs.last()]).parent == Some(u) && vs.contains(u)),
                Err(IndexError::BrokenParentLink { child_uuid, missing_parent_uuid }) =>
                    !m.contains_key(missing_parent_uuid) && walk_hits(
                    m,
                    start_node_uuid,
                    child_uuid,
                    fuel,
                ) && ((child_uuid == missing_parent_uuid && child_uuid == start_node_uuid
                    && !m.contains_key(start_node_uuid)) || (m.contains_key(child_uuid)
                    && m[child_uuid].parent == Some(missing_parent_uuid))),
                Err(_) => false,
            }
        }),
{
    match index.ancestry_walk(start_node_uuid, None) {
        WalkEnd::Root => Ok(None),
        WalkEnd::Repeat(u) => Ok(Some(u)),
        WalkEnd::Broken { child, missing } => Err(
            IndexError::BrokenParentLink { child_uuid: child, missing_parent_uuid: missing },
        ),
        WalkEnd::Hit => {
            proof {
                assert(false);
            }
            Ok(None)
        },
    }
}

/// The display names from just below the root down to `x`, gathered by
/// walking parent pointers with bounded fuel.
fn collect_chain_names(index: &GlobalIndex, x: u128, fuel: usize) -> (r: Option<Vec<String>>)
    requires
        index.wf(),
    ensures
        r.deep_view() == crate::graph::chain_names(index.projects_map(), x, fuel as nat),
    decreases fuel,
{
    let ghost m = index.projects_map();
    if x == GLOBAL_PROJECT_UUID {
        if !index.contains_project(x) {
            return None;
        }
        let empty: Vec<String> = Vec::new();
        proof {
            assert(empty.deep_view() =~= Seq::<Seq<char>>::empty());
        }
        return Some(empty);
    }
    match index.get_entry(x) {
        None => None,
        Some(e) => {
            let name = e.name.deep_clone();
            match e.parent {
                None => {
                    let single: Vec<String> = vec![name];
                    proof {
                        assert(single.deep_view() =~= seq![m[x].name]);
                    }
                    Some(single)
                },
                Some(p) => {
                    if fuel == 0 {
                        return None;
                    }
                    match collect_chain_names(index, p, fuel - 1) {
                        None => None,
                        Some(mut names) => {
                            let ghost before = names.deep_view();
                            names.push(name);
                            proof {
                                assert forall|l: int| 0 <= l < names.deep_view().len() implies
                                    names.deep_view()[l] == before.push(m[x].name)[l] by {
                                    if l < before.len() {
                                        assert(names@[l] == names@.subrange(
                                            0,
                                            names@.len() - 1,
                                        )[l]);
                                    }
                                }
                                assert(names.deep_view() =~= before.push(m[x].name));
                            }
                            Some(names)
                        },
                    }
                },
            }
        },
    }
}

/// Rebuilds the slash-joined qualified name of an identity by walking its
/// ancestor chain; `None` when the chain is broken or cyclic.
pub fn build_qualified_name(uuid: u128, index: &GlobalIndex) -> (r: Option<String>)
    requires
        index.wf(),
    ensures
        ({
            let m = index.projects_map();
            let names = crate::graph::chain_names(m, uuid, index.kv().len() as nat);
            &&& match r {
                Some(s) => if uuid == GLOBAL_PROJECT_UUID {
                    s@ == "global"@
                } else {
                    names is Some && s@ == crate::strutil::join_slash_spec(names->0)
                },
                None => uuid != GLOBAL_PROJECT_UUID && names is None,
            }
        }),
{
    if uuid == GLOBAL_PROJECT_UUID {
        return Some("global".to_owned());
    }
    let fuel = index.project_count();
    match collect_chain_names(index, uuid, fuel) {
        None => None,
        Some(names) => Some(crate::strutil::join_slash(&names)),
    }
}

/// Rebuilds a project's local identity mirror from its graph entry, for the
/// caller to write beside the project's files.
pub fn project_ref_from_index(index: &GlobalIndex, uuid: u128) -> (r: Option<ProjectRef>)
    requires
        index.wf(),
    ensures
        ({
            let m = index.projects_map();
            match r {
                Some(pr) => m.contains_key(uuid) && pr.self_uuid == uuid && pr.parent_uuid
                    == m[uuid].parent && pr.name@ == m[uuid].name,
                None => !m.contains_key(uuid),
            }
        }),
{
    match index.get_entry(uuid) {
        Some(e) => Some(
            ProjectRef { self_uuid: uuid, parent_uuid: e.parent, name: e.name.deep_clone() },
        ),
        None => None,
    }
}

/// A survivor's entry after orphan re-parenting.
pub open spec fn reparented_entry(e: IndexEntryV, rm: Set<u128>) -> IndexEntryV {
    if match e.parent {
        Some(p) => rm.contains(p),
        None => false,
    } {
        IndexEntryV { name: e.name, path: e.path, parent: Some(GLOBAL_PROJECT_UUID) }
    } else {
        e
    }
}

} // verus!
