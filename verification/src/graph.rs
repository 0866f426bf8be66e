//! Reachability over the project graph: the ghost walk along `parent`
//! pointers, the acyclicity invariant, and verified lookups.

use vstd::prelude::*;

use crate::models::{IndexEntry, IndexEntryV};
use crate::smap::{
    assoc_distinct, assoc_map, lemma_assoc_absent, lemma_assoc_finite, lemma_assoc_get, DeepClone,
};
use crate::strutil::str_eq;

verus! {

/// The reserved identity of the implicit root project.
pub const GLOBAL_PROJECT_UUID: u128 = 0;

/// The global project graph: identity-keyed entries plus the identity used
/// most recently, persisted as one file.
pub struct GlobalIndex {
    projects: Vec<(u128, IndexEntry)>,
    last_used: Option<u128>,
}

impl GlobalIndex {
    /// The stored pairs, abstracted to views.
    pub closed spec fn kv(&self) -> Seq<(u128, IndexEntryV)> {
        self.projects.deep_view()
    }

    /// The graph as a mathematical map from identity to entry.
    pub open spec fn projects_map(&self) -> Map<u128, IndexEntryV> {
        assoc_map(self.kv())
    }

    /// The most recently used identity, if any.
    pub closed spec fn spec_last_used(&self) -> Option<u128> {
        self.last_used
    }

    /// Identities are pairwise distinct.
    pub open spec fn wf(&self) -> bool {
        assoc_distinct(self.kv())
    }

    /// An empty graph.
    pub fn new() -> (r: Self)
        ensures
            r.wf(),
            r.kv() == Seq::<(u128, IndexEntryV)>::empty(),
            r.projects_map() == Map::<u128, IndexEntryV>::empty(),
            r.spec_last_used() is None,
    {
        let projects: Vec<(u128, IndexEntry)> = Vec::new();
        proof {
            assert(projects.deep_view() =~= Seq::<(u128, IndexEntryV)>::empty());
        }
        GlobalIndex { projects, last_used: None }
    }

    /// The stored pairs, for serialization and display by callers.
    pub fn entries(&self) -> (r: &Vec<(u128, IndexEntry)>)
        ensures
            r.deep_view() == self.kv(),
    {
        &self.projects
    }

    /// Reads the most recently used identity.
    pub fn last_used(&self) -> (r: Option<u128>)
        ensures
            r == self.spec_last_used(),
    {
        self.last_used
    }

    /// Records the most recently used identity.
    pub fn set_last_used(&mut self, uuid: u128)
        ensures
            final(self).kv() == old(self).kv(),
            final(self).wf() == old(self).wf(),
            final(self).spec_last_used() == Some(uuid),
    {
        self.last_used = Some(uuid);
    }

    /// Appends a pair; crate-internal, callers keep distinctness.
    pub(crate) fn push_pair(&mut self, uuid: u128, entry: IndexEntry)
        ensures
            final(self).kv() == old(self).kv().push((uuid, entry.deep_view())),
            final(self).spec_last_used() == old(self).spec_last_used(),
    {
        let ghost s0 = self.kv();
        let ghost pair = (uuid, entry.deep_view());
        self.projects.push((uuid, entry));
        proof {
            assert(self.kv() =~= s0.push(pair));
        }
    }

    /// Drops the pair at a position; crate-internal.
    pub(crate) fn remove_pair(&mut self, i: usize)
        requires
            i < old(self).kv().len(),
        ensures
            final(self).kv() == old(self).kv().remove(i as int),
            final(self).spec_last_used() == old(self).spec_last_used(),
    {
        let ghost s0 = self.kv();
        self.projects.remove(i);
        proof {
            assert(self.kv() =~= s0.remove(i as int));
        }
    }

    /// Replaces the pair at a position; crate-internal.
    pub(crate) fn replace_pair(&mut self, i: usize, uuid: u128, entry: IndexEntry)
        requires
            i < old(self).kv().len(),
        ensures
            final(self).kv() == old(self).kv().update(i as int, (uuid, entry.deep_view())),
            final(self).spec_last_used() == old(self).spec_last_used(),
    {
        let ghost s0 = self.kv();
        let ghost pair = (uuid, entry.deep_view());
        self.projects.remove(i);
        proof {
            assert(self.kv() =~= s0.remove(i as int));
        }
        self.projects.insert(i, (uuid, entry));
        proof {
            assert(self.kv() =~= s0.remove(i as int).insert(i as int, pair));
            assert(self.kv() =~= s0.update(i as int, pair));
        }
    }

    /// Rebuilds a graph from listed pairs; a later pair replaces an earlier
    /// one under the same identity.
    pub fn from_entries(entries: Vec<(u128, IndexEntry)>, last_used: Option<u128>) -> (r: Self)
        ensures
            r.wf(),
            r.projects_map() == assoc_map(entries.deep_view()),
            r.spec_last_used() == last_used,
    {
        let ghost s = entries.deep_view();
        let mut r = GlobalIndex { projects: Vec::new(), last_used };
        proof {
            assert(r.kv() =~= Seq::<(u128, IndexEntryV)>::empty());
        }
        let mut i: usize = 0;
        while i < entries.len()
            invariant
                i <= entries.len(),
                s == entries.deep_view(),
                r.wf(),
                r.spec_last_used() == last_used,
                r.projects_map() == assoc_map(s.take(i as int)),
            decreases entries.len() - i,
        {
            proof {
                assert(s[i as int] == entries@[i as int].deep_view());
            }
            let uuid = entries[i].0;
            let entry = entries[i].1.deep_clone();
            r.insert_pair(uuid, entry);
            proof {
                let next = s.take(i + 1);
                assert(next.drop_last() =~= s.take(i as int));
                assert(next.last() == s[i as int]);
            }
            i += 1;
        }
        proof {
            assert(s.take(s.len() as int) =~= s);
        }
        r
    }

    /// Inserts a pair, replacing the entry under an equal identity;
    /// crate-internal.
    pub(crate) fn insert_pair(&mut self, uuid: u128, entry: IndexEntry)
        requires
            old(self).wf(),
        ensures
            final(self).wf(),
            final(self).projects_map() == old(self).projects_map().insert(
                uuid,
                entry.deep_view(),
            ),
            final(self).spec_last_used() == old(self).spec_last_used(),
    {
        let ghost s0 = self.kv();
        let ghost kd = uuid;
        let ghost vd = entry.deep_view();
        let hit = self.position_of(uuid);
        let (found, i): (bool, usize) = match hit {
            Some(i) => (true, i),
            None => (false, 0),
        };
        if found {
            self.remove_pair(i);
        }
        let ghost s1 = self.kv();
        self.push_pair(uuid, entry);
        proof {
            if found {
                assert forall|j: int| 0 <= j < s1.len() implies (#[trigger] s1[j]).0 != kd by {
                    if j < i {
                    } else {
                        assert(s1[j] == s0[j + 1]);
                    }
                }
            }
            if !found {
                crate::smap::lemma_assoc_dom(s0, kd);
            }
            assert(crate::smap::assoc_absent(s1, kd));
            assert(assoc_distinct(s1)) by {
                if found {
                    assert forall|j: int, l: int| 0 <= j < l < s1.len() implies (
                    #[trigger] s1[j]).0 != (#[trigger] s1[l]).0 by {
                        let j0 = if j < i { j } else { j + 1 };
                        let l0 = if l < i { l } else { l + 1 };
                        assert(s1[j] == s0[j0]);
                        assert(s1[l] == s0[l0]);
                    }
                }
            }
            assert(final(self).wf()) by {
                let s2 = s1.push((kd, vd));
                assert forall|j: int, l: int| 0 <= j < l < s2.len() implies (
                #[trigger] s2[j]).0 != (#[trigger] s2[l]).0 by {
                    if l == s2.len() - 1 {
                        assert(s2[j] == s1[j]);
                        assert(crate::smap::assoc_absent(s1, kd));
                    } else {
                        assert(s2[j] == s1[j]);
                        assert(s2[l] == s1[l]);
                    }
                }
            }
            assert(final(self).projects_map() =~= old(self).projects_map().insert(kd, vd)) by {
                let m_new = assoc_map(s1.push((kd, vd)));
                let m_old = assoc_map(s0);
                assert(s1.push((kd, vd)).drop_last() =~= s1);
                assert(m_new == assoc_map(s1).insert(kd, vd));
                assert forall|k: u128| #[trigger]
                    m_new.contains_key(k) || m_old.insert(kd, vd).contains_key(k) implies
                    m_new.contains_key(k) && m_old.insert(kd, vd).contains_key(k) && m_new[k]
                    == m_old.insert(kd, vd)[k] by {
                    if k == kd {
                        assert(m_new.contains_key(k) && m_new[k] == vd);
                    } else {
                        crate::smap::lemma_assoc_dom(s1, k);
                        crate::smap::lemma_assoc_dom(s0, k);
                        if found {
                            assert forall|j: int| 0 <= j < s0.len() && (#[trigger] s0[j]).0 == k
                                implies exists|l: int|
                                0 <= l < s1.len() && (#[trigger] s1[l]).0 == k by {
                                let l0 = if j < i { j } else { j - 1 };
                                assert(j != i);
                                assert(s1[l0] == s0[j]);
                            }
                            assert forall|j: int| 0 <= j < s1.len() && (#[trigger] s1[j]).0 == k
                                implies exists|l: int|
                                0 <= l < s0.len() && (#[trigger] s0[l]).0 == k by {
                                let l0 = if j < i { j } else { j + 1 };
                                assert(s0[l0] == s1[j]);
                            }
                        }
                        if assoc_map(s1).contains_key(k) {
                            crate::smap::lemma_assoc_contains(s1, k);
                            let j = choose|j: int|
                                0 <= j < s1.len() && (#[trigger] s1[j]).0 == k;
                            assert forall|l: int| j < l < s1.len() implies (
                            #[trigger] s1[l]).0 != k by {
                                assert(assoc_distinct(s1));
                            }
                            lemma_assoc_get(s1, j);
                            let j0 = if found && j >= i { j + 1 } else { j };
                            assert(s0[j0] == s1[j]);
                            assert forall|l: int| j0 < l < s0.len() implies (
                            #[trigger] s0[l]).0 != k by {
                                let l1 = if found && l > i { l - 1 } else { l };
                                if found && l == i {
                                } else {
                                    assert(s1[l1] == s0[l]);
                                    assert(assoc_distinct(s1));
                                    if l1 == j {
                                        assert(false);
                                    }
                                }
                            }
                            lemma_assoc_get(s0, j0);
                        }
                    }
                }
            }
        }
    }
}

/// The number of parent steps from `x` to a parentless entry, if a walk with
/// the given fuel reaches one.
pub open spec fn root_steps(m: Map<u128, IndexEntryV>, x: u128, fuel: nat) -> Option<nat>
    decreases fuel,
{
    if !m.contains_key(x) {
        None
    } else {
        match m[x].parent {
            None => Some(0),
            Some(p) => if fuel == 0 {
                None
            } else {
                match root_steps(m, p, (fuel - 1) as nat) {
                    Some(d) => Some(d + 1),
                    None => None,
                }
            },
        }
    }
}

/// Whether the parent walk from `from` encounters `target` within `fuel`
/// steps (zero steps count: `from == target` hits).
pub open spec fn walk_hits(m: Map<u128, IndexEntryV>, from: u128, target: u128, fuel: nat) -> bool
    decreases fuel,
{
    from == target || (m.contains_key(from) && match m[from].parent {
        None => false,
        Some(p) => fuel > 0 && walk_hits(m, p, target, (fuel - 1) as nat),
    })
}

/// The canonical fuel for walks over `m`: the number of its entries.
pub open spec fn dom_fuel(m: Map<u128, IndexEntryV>) -> nat {
    m.dom().len()
}

/// Every parent pointer leads to an existing entry.
pub open spec fn parents_linked(m: Map<u128, IndexEntryV>) -> bool {
    forall|x: u128| #[trigger]
        m.contains_key(x) ==> match m[x].parent {
            Some(p) => m.contains_key(p),
            None => true,
        }
}

/// Only the root entry may lack a parent.
pub open spec fn root_only(m: Map<u128, IndexEntryV>) -> bool {
    forall|x: u128| #[trigger] m.contains_key(x) && m[x].parent is None ==> x
        == GLOBAL_PROJECT_UUID
}

/// Every entry's parent walk reaches a parentless entry within the canonical
/// fuel: the graph holds no cycle and no dangling pointer on any chain.
pub open spec fn acyclic(m: Map<u128, IndexEntryV>) -> bool {
    forall|x: u128| #[trigger] m.contains_key(x) ==> root_steps(m, x, dom_fuel(m)) is Some
}

/// The graph invariant that mutations preserve.
pub open spec fn graph_inv(m: Map<u128, IndexEntryV>) -> bool {
    m.dom().finite() && parents_linked(m) && root_only(m) && acyclic(m)
}

/// No two distinct entries share a parent and a name.
pub open spec fn siblings_unique(m: Map<u128, IndexEntryV>) -> bool {
    forall|x: u128, y: u128|
        m.contains_key(x) && m.contains_key(y) && x != y && (#[trigger] m[x]).parent == (
        #[trigger] m[y]).parent ==> m[x].name != m[y].name
}

/// Some entry other than `exclude` has the given parent and name.
pub open spec fn has_other_entry_named(
    m: Map<u128, IndexEntryV>,
    exclude: u128,
    parent: Option<u128>,
    name: Seq<char>,
) -> bool {
    exists|x: u128|
        m.contains_key(x) && x != exclude && (#[trigger] m[x]).parent == parent && m[x].name
            == name
}

/// Some existing entry has the given parent and name.
pub open spec fn has_child_named(
    m: Map<u128, IndexEntryV>,
    parent: Option<u128>,
    name: Seq<char>,
) -> bool {
    exists|c: u128| m.contains_key(c) && (#[trigger] m[c]).parent == parent && m[c].name == name
}

/// The display names along the chain from the root down to `x`, the root's
/// own name excluded; `None` when the chain is broken or overruns the fuel.
pub open spec fn chain_names(m: Map<u128, IndexEntryV>, x: u128, fuel: nat) -> Option<
    Seq<Seq<char>>,
>
    decreases fuel,
{
    if !m.contains_key(x) {
        None
    } else if x == GLOBAL_PROJECT_UUID {
        Some(Seq::empty())
    } else {
        match m[x].parent {
            None => Some(seq![m[x].name]),
            Some(p) => if fuel == 0 {
                None
            } else {
                match chain_names(m, p, (fuel - 1) as nat) {
                    Some(s) => Some(s.push(m[x].name)),
                    None => None,
                }
            },
        }
    }
}

/// The identities along the chain from the root down to `x`; `None` when the
/// chain is broken or overruns the fuel.
pub open spec fn chain_uuids(m: Map<u128, IndexEntryV>, x: u128, fuel: nat) -> Option<Seq<u128>>
    decreases fuel,
{
    if !m.contains_key(x) {
        None
    } else {
        match m[x].parent {
            None => Some(seq![x]),
            Some(p) => if fuel == 0 {
                None
            } else {
                match chain_uuids(m, p, (fuel - 1) as nat) {
                    Some(s) => Some(s.push(x)),
                    None => None,
                }
            },
        }
    }
}

/// A successful walk stays successful, with the same distance, on more fuel.
pub proof fn lemma_root_steps_mono(
    m: Map<u128, IndexEntryV>,
    x: u128,
    d: nat,
    f1: nat,
    f2: nat,
)
    requires
        root_steps(m, x, f1) == Some(d),
        f1 <= f2,
    ensures
        root_steps(m, x, f2) == Some(d),
    decreases f1,
{
    if m.contains_key(x) {
        match m[x].parent {
            None => {},
            Some(p) => {
                let dp = (d - 1) as nat;
                assert(root_steps(m, p, (f1 - 1) as nat) == Some(dp));
                lemma_root_steps_mono(m, p, dp, (f1 - 1) as nat, (f2 - 1) as nat);
            },
        }
    }
}

/// The distance itself is fuel enough, and never exceeds the fuel used.
pub proof fn lemma_root_steps_min_fuel(m: Map<u128, IndexEntryV>, x: u128, d: nat, f: nat)
    requires
        root_steps(m, x, f) == Some(d),
    ensures
        root_steps(m, x, d) == Some(d),
        d <= f,
    decreases f,
{
    if m.contains_key(x) {
        match m[x].parent {
            None => {},
            Some(p) => {
                let dp = (d - 1) as nat;
                assert(root_steps(m, p, (f - 1) as nat) == Some(dp));
                lemma_root_steps_min_fuel(m, p, dp, (f - 1) as nat);
                lemma_root_steps_mono(m, p, dp, dp, (d - 1) as nat);
            },
        }
    }
}

/// The distance to the root does not depend on the fuel.
pub proof fn lemma_root_steps_unique(
    m: Map<u128, IndexEntryV>,
    x: u128,
    d1: nat,
    f1: nat,
    d2: nat,
    f2: nat,
)
    requires
        root_steps(m, x, f1) == Some(d1),
        root_steps(m, x, f2) == Some(d2),
    ensures
        d1 == d2,
{
    lemma_root_steps_mono(m, x, d1, f1, f1 + f2);
    lemma_root_steps_mono(m, x, d2, f2, f1 + f2);
}

/// Removing a node farther from the root than `y` leaves `y`'s walk intact.
pub proof fn lemma_root_steps_remove(
    m: Map<u128, IndexEntryV>,
    y: u128,
    e: nat,
    f: nat,
    x: u128,
    d: nat,
    fx: nat,
)
    requires
        root_steps(m, y, f) == Some(e),
        root_steps(m, x, fx) == Some(d),
        d > e,
    ensures
        root_steps(m.remove(x), y, f) == Some(e),
    decreases e,
{
    if y == x {
        lemma_root_steps_unique(m, x, d, fx, e, f);
    }
    assert(y != x);
    match m[y].parent {
        None => {},
        Some(p) => {
            let ep = (e - 1) as nat;
            assert(root_steps(m, p, (f - 1) as nat) == Some(ep));
            lemma_root_steps_remove(m, p, ep, (f - 1) as nat, x, d, fx);
        },
    }
}

/// A reachable root lies fewer than `|dom|` steps away.
pub proof fn lemma_root_steps_bound(m: Map<u128, IndexEntryV>, x: u128, d: nat, f: nat)
    requires
        m.dom().finite(),
        root_steps(m, x, f) == Some(d),
    ensures
        d < m.dom().len(),
    decreases d,
{
    broadcast use vstd::set::group_set_axioms;

    assert(m.contains_key(x));
    assert(m.dom().contains(x));
    if d == 0 {
        assert(m.dom().len() > 0);
    } else {
        let p = m[x].parent->0;
        let dp = (d - 1) as nat;
        assert(root_steps(m, p, (f - 1) as nat) == Some(dp));
        lemma_root_steps_remove(m, p, dp, (f - 1) as nat, x, d, f);
        let m2 = m.remove(x);
        assert(m2.dom() =~= m.dom().remove(x));
        lemma_root_steps_bound(m2, p, dp, (f - 1) as nat);
    }
}

/// A successful walk at any fuel is successful at the canonical fuel.
pub proof fn lemma_root_steps_canonical(m: Map<u128, IndexEntryV>, x: u128, d: nat, f: nat)
    requires
        m.dom().finite(),
        root_steps(m, x, f) == Some(d),
    ensures
        root_steps(m, x, dom_fuel(m)) == Some(d),
{
    lemma_root_steps_bound(m, x, d, f);
    lemma_root_steps_min_fuel(m, x, d, f);
    lemma_root_steps_mono(m, x, d, d, dom_fuel(m));
}

/// Whether `x`'s walk reaches the root is what its parent's walk decides.
pub proof fn lemma_root_steps_parent_iff(m: Map<u128, IndexEntryV>, x: u128, p: u128)
    requires
        m.dom().finite(),
        m.contains_key(x),
        m[x].parent == Some(p),
    ensures
        root_steps(m, x, dom_fuel(m)) is Some <==> root_steps(m, p, dom_fuel(m)) is Some,
{
    let fuel = dom_fuel(m);
    if root_steps(m, x, fuel) is Some {
        let d = root_steps(m, x, fuel)->0;
        if fuel == 0 {
            assert(m.dom().contains(x));
            broadcast use vstd::set::group_set_axioms;

            assert(false);
        }
        assert(root_steps(m, p, (fuel - 1) as nat) == Some((d - 1) as nat));
        lemma_root_steps_canonical(m, p, (d - 1) as nat, (fuel - 1) as nat);
    } else if root_steps(m, p, fuel) is Some {
        let dp = root_steps(m, p, fuel)->0;
        lemma_root_steps_min_fuel(m, p, dp, fuel);
        assert(root_steps(m, x, dp + 1) == Some(dp + 1));
        lemma_root_steps_canonical(m, x, dp + 1, dp + 1);
    }
}

/// A hit within some fuel is a hit within any larger fuel.
pub proof fn lemma_walk_hits_mono(
    m: Map<u128, IndexEntryV>,
    from: u128,
    target: u128,
    f1: nat,
    f2: nat,
)
    requires
        walk_hits(m, from, target, f1),
        f1 <= f2,
    ensures
        walk_hits(m, from, target, f2),
    decreases f1,
{
    if from != target {
        let p = m[from].parent->0;
        lemma_walk_hits_mono(m, p, target, (f1 - 1) as nat, (f2 - 1) as nat);
    }
}

/// A walk that reaches the root never meets an identity outside the graph.
pub proof fn lemma_walk_misses_absent(
    m: Map<u128, IndexEntryV>,
    y: u128,
    e: nat,
    f: nat,
    u: u128,
)
    requires
        root_steps(m, y, f) == Some(e),
        !m.contains_key(u),
    ensures
        !walk_hits(m, y, u, f),
    decreases f,
{
    assert(y != u);
    match m[y].parent {
        None => {},
        Some(p) => {
            if f > 0 {
                lemma_walk_misses_absent(m, p, (e - 1) as nat, (f - 1) as nat, u);
            }
        },
    }
}

/// A walk that hits a node keeps hitting it after one more parent step.
pub proof fn lemma_walk_hits_extend(
    m: Map<u128, IndexEntryV>,
    x: u128,
    y: u128,
    f: nat,
    p: u128,
)
    requires
        walk_hits(m, x, y, f),
        m.contains_key(y),
        m[y].parent == Some(p),
    ensures
        walk_hits(m, x, p, f + 1),
    decreases f,
{
    if x == y {
        assert(walk_hits(m, p, p, f));
    } else {
        let q = m[x].parent->0;
        lemma_walk_hits_extend(m, q, y, (f - 1) as nat, p);
        lemma_walk_hits_mono(m, q, p, f, f + 1);
        assert(walk_hits(m, q, p, (f + 1 - 1) as nat));
    }
}

/// Along a consecutive parent chain, the first node's walk hits the last.
pub proof fn lemma_consecutive_hits(m: Map<u128, IndexEntryV>, vs: Seq<u128>, j: int, l: int)
    requires
        0 <= j <= l < vs.len(),
        forall|t: int| 0 <= t < vs.len() ==> m.contains_key(#[trigger] vs[t]),
        forall|t: int| 0 <= t < vs.len() - 1 ==> (#[trigger] m[vs[t]]).parent == Some(vs[t + 1]),
    ensures
        walk_hits(m, vs[j], vs[l], (l - j) as nat),
    decreases l - j,
{
    if j < l {
        lemma_consecutive_hits(m, vs, j + 1, l);
        assert(m[vs[j]].parent == Some(vs[j + 1]));
    }
}

/// Distance to the root never grows along a walk.
pub proof fn lemma_walk_hits_distance(
    m: Map<u128, IndexEntryV>,
    a: u128,
    b: u128,
    f: nat,
    da: nat,
    fa: nat,
)
    requires
        walk_hits(m, a, b, f),
        root_steps(m, a, fa) == Some(da),
    ensures
        root_steps(m, b, fa) is Some,
        root_steps(m, b, fa)->0 <= da,
    decreases f,
{
    if a == b {
    } else {
        let p = m[a].parent->0;
        assert(root_steps(m, p, (fa - 1) as nat) == Some((da - 1) as nat));
        lemma_root_steps_mono(m, p, (da - 1) as nat, (fa - 1) as nat, fa);
        lemma_walk_hits_distance(m, p, b, (f - 1) as nat, (da - 1) as nat, fa);
    }
}

/// A node whose parent's walk leads back to it cannot reach the root.
pub proof fn lemma_cycle_no_root(m: Map<u128, IndexEntryV>, x: u128, p: u128, f: nat, fx: nat)
    requires
        m.contains_key(x),
        m[x].parent == Some(p),
        walk_hits(m, p, x, f),
    ensures
        root_steps(m, x, fx) is None,
{
    if root_steps(m, x, fx) is Some {
        let d = root_steps(m, x, fx)->0;
        assert(d > 0 && root_steps(m, p, (fx - 1) as nat) == Some((d - 1) as nat));
        lemma_root_steps_mono(m, p, (d - 1) as nat, (fx - 1) as nat, fx);
        lemma_walk_hits_distance(m, p, x, f, (d - 1) as nat, fx);
        lemma_root_steps_unique(m, x, d, fx, root_steps(m, x, fx)->0, fx);
        assert(false);
    }
}

/// Law: in a graph respecting the invariant — which every mutation of this
/// library preserves — the parent walk from any registered identity reaches
/// the root in fewer steps than the graph has entries.
pub proof fn lemma_walks_terminate_within_graph_size(m: Map<u128, IndexEntryV>, x: u128)
    requires
        graph_inv(m),
        m.contains_key(x),
    ensures
        root_steps(m, x, dom_fuel(m)) is Some,
        root_steps(m, x, dom_fuel(m))->0 < dom_fuel(m),
{
    let d = root_steps(m, x, dom_fuel(m))->0;
    lemma_root_steps_bound(m, x, d, dom_fuel(m));
}

/// A walk that avoids the replaced key is unchanged by the replacement.
pub proof fn lemma_root_steps_insert_untouched(
    m: Map<u128, IndexEntryV>,
    y: u128,
    e: nat,
    f: nat,
    x: u128,
    v: IndexEntryV,
)
    requires
        root_steps(m, y, f) == Some(e),
        !walk_hits(m, y, x, f),
    ensures
        root_steps(m.insert(x, v), y, f) == Some(e),
    decreases f,
{
    assert(y != x);
    match m[y].parent {
        None => {},
        Some(p) => {
            lemma_root_steps_insert_untouched(m, p, (e - 1) as nat, (f - 1) as nat, x, v);
        },
    }
}

/// Replacing an entry without changing its parent changes no walk.
pub proof fn lemma_root_steps_same_parent(
    m: Map<u128, IndexEntryV>,
    x: u128,
    v: IndexEntryV,
    y: u128,
    f: nat,
)
    requires
        m.contains_key(x),
        v.parent == m[x].parent,
    ensures
        root_steps(m.insert(x, v), y, f) == root_steps(m, y, f),
    decreases f,
{
    let m2 = m.insert(x, v);
    assert(m2.dom() =~= m.dom());
    if m.contains_key(y) {
        match m[y].parent {
            None => {},
            Some(p) => {
                if f > 0 {
                    lemma_root_steps_same_parent(m, x, v, p, (f - 1) as nat);
                }
            },
        }
    }
}

/// Every entry's walk passes through the root entry.
pub proof fn lemma_walk_reaches_global(m: Map<u128, IndexEntryV>, x: u128, d: nat, f: nat)
    requires
        root_only(m),
        root_steps(m, x, f) == Some(d),
    ensures
        m.contains_key(GLOBAL_PROJECT_UUID),
        walk_hits(m, x, GLOBAL_PROJECT_UUID, f),
    decreases f,
{
    match m[x].parent {
        None => {
            assert(x == GLOBAL_PROJECT_UUID);
        },
        Some(p) => {
            lemma_walk_reaches_global(m, p, (d - 1) as nat, (f - 1) as nat);
        },
    }
}

/// In an invariant-respecting graph that holds the root, the root entry is
/// parentless.
pub proof fn lemma_global_parent_none(m: Map<u128, IndexEntryV>)
    requires
        graph_inv(m),
        m.contains_key(GLOBAL_PROJECT_UUID),
    ensures
        m[GLOBAL_PROJECT_UUID].parent is None,
{
    let g = GLOBAL_PROJECT_UUID;
    match m[g].parent {
        None => {},
        Some(p) => {
            let fuel = dom_fuel(m);
            let d = root_steps(m, g, fuel)->0;
            assert(root_steps(m, p, (fuel - 1) as nat) == Some((d - 1) as nat));
            lemma_walk_reaches_global(m, p, (d - 1) as nat, (fuel - 1) as nat);
            lemma_walk_hits_mono(m, p, g, (fuel - 1) as nat, fuel);
            lemma_cycle_no_root(m, g, p, fuel, fuel);
            assert(false);
        },
    }
}

/// Registering a fresh identity under an existing parent keeps the graph
/// invariant.
pub proof fn lemma_add_preserves_inv(
    m: Map<u128, IndexEntryV>,
    u: u128,
    e: IndexEntryV,
    p: u128,
)
    requires
        graph_inv(m),
        !m.contains_key(u),
        m.contains_key(p),
        e.parent == Some(p),
    ensures
        graph_inv(m.insert(u, e)),
{
    broadcast use vstd::set::group_set_axioms;

    let m2 = m.insert(u, e);
    assert(m2.dom() =~= m.dom().insert(u));
    let fuel = dom_fuel(m);
    assert forall|x: u128| #[trigger] m2.contains_key(x) implies root_steps(
        m2,
        x,
        dom_fuel(m2),
    ) is Some by {
        if x == u {
            let dp = root_steps(m, p, fuel)->0;
            lemma_walk_misses_absent(m, p, dp, fuel, u);
            lemma_root_steps_insert_untouched(m, p, dp, fuel, u, e);
            lemma_root_steps_min_fuel(m2, p, dp, fuel);
            assert(root_steps(m2, u, dp + 1) == Some(dp + 1));
            lemma_root_steps_canonical(m2, u, dp + 1, dp + 1);
        } else {
            let d = root_steps(m, x, fuel)->0;
            lemma_walk_misses_absent(m, x, d, fuel, u);
            lemma_root_steps_insert_untouched(m, x, d, fuel, u, e);
            lemma_root_steps_canonical(m2, x, d, fuel);
        }
    }
}

/// Replacing an entry's name or path keeps the graph invariant.
pub proof fn lemma_update_same_parent_preserves_inv(
    m: Map<u128, IndexEntryV>,
    x: u128,
    v: IndexEntryV,
)
    requires
        graph_inv(m),
        m.contains_key(x),
        v.parent == m[x].parent,
    ensures
        graph_inv(m.insert(x, v)),
{
    let m2 = m.insert(x, v);
    assert(m2.dom() =~= m.dom());
    assert forall|y: u128| #[trigger] m2.contains_key(y) implies root_steps(
        m2,
        y,
        dom_fuel(m2),
    ) is Some by {
        lemma_root_steps_same_parent(m, x, v, y, dom_fuel(m));
        assert(dom_fuel(m2) == dom_fuel(m));
    }
}

/// Re-parenting a node under a new parent whose ancestry avoids the node
/// keeps the graph invariant.
pub proof fn lemma_link_preserves_inv(m: Map<u128, IndexEntryV>, a: u128, b: u128, v: IndexEntryV)
    requires
        graph_inv(m),
        m.contains_key(a),
        m.contains_key(b),
        !walk_hits(m, b, a, dom_fuel(m)),
        v.parent == Some(b),
    ensures
        graph_inv(m.insert(a, v)),
{
    let m2 = m.insert(a, v);
    let fuel = dom_fuel(m);
    assert(m2.dom() =~= m.dom());
    assert(dom_fuel(m2) == fuel);
    let db = root_steps(m, b, fuel)->0;
    lemma_root_steps_insert_untouched(m, b, db, fuel, a, v);
    lemma_root_steps_min_fuel(m2, b, db, fuel);
    assert(root_steps(m2, a, db + 1) == Some(db + 1));
    lemma_root_steps_canonical(m2, a, db + 1, db + 1);
    assert forall|x: u128| #[trigger] m2.contains_key(x) implies root_steps(
        m2,
        x,
        dom_fuel(m2),
    ) is Some by {
        let d = root_steps(m, x, fuel)->0;
        lemma_link_node(m, m2, a, x, d);
    }
}

/// Helper for [`lemma_link_preserves_inv`]: every node keeps a rooted walk,
/// by induction over its old distance.
proof fn lemma_link_node(
    m: Map<u128, IndexEntryV>,
    m2: Map<u128, IndexEntryV>,
    a: u128,
    x: u128,
    d: nat,
)
    requires
        graph_inv(m),
        m.contains_key(x),
        root_steps(m, x, dom_fuel(m)) == Some(d),
        m2.dom() == m.dom(),
        forall|y: u128| y != a && m.contains_key(y) ==> m2[y] == m[y],
        root_steps(m2, a, dom_fuel(m2)) is Some,
    ensures
        root_steps(m2, x, dom_fuel(m2)) is Some,
    decreases d,
{
    if x != a {
        assert(m2[x] == m[x]);
        match m[x].parent {
            None => {
                assert(m2.contains_key(x));
                assert(root_steps(m2, x, dom_fuel(m2)) == Some(0nat));
            },
            Some(q) => {
                let fuel = dom_fuel(m);
                assert(root_steps(m, q, (fuel - 1) as nat) == Some((d - 1) as nat));
                lemma_root_steps_canonical(m, q, (d - 1) as nat, (fuel - 1) as nat);
                lemma_link_node(m, m2, a, q, (d - 1) as nat);
                let dq = root_steps(m2, q, dom_fuel(m2))->0;
                lemma_root_steps_min_fuel(m2, q, dq, dom_fuel(m2));
                assert(root_steps(m2, x, dq + 1) == Some(dq + 1));
                assert(m2.dom().finite()) by {
                    assert(m2.dom() =~= m.dom());
                }
                lemma_root_steps_canonical(m2, x, dq + 1, dq + 1);
            },
        }
    }
}

/// What removing a set of identities leaves: surviving entries, each
/// re-pointed at the root when orphaned and re-parenting was asked for.
pub open spec fn spec_remove_map(
    m: Map<u128, IndexEntryV>,
    rm: Set<u128>,
    reparent: bool,
) -> Map<u128, IndexEntryV> {
    Map::new(
        |k: u128| m.contains_key(k) && !rm.contains(k),
        |k: u128|
            if reparent && match m[k].parent {
                Some(p) => rm.contains(p),
                None => false,
            } {
                IndexEntryV { name: m[k].name, path: m[k].path, parent: Some(GLOBAL_PROJECT_UUID) }
            } else {
                m[k]
            },
    )
}

/// No surviving entry points into the removed set.
pub open spec fn removal_closed(m: Map<u128, IndexEntryV>, rm: Set<u128>) -> bool {
    forall|x: u128|
        m.contains_key(x) && !rm.contains(x) ==> match (#[trigger] m[x]).parent {
            Some(p) => !rm.contains(p),
            None => true,
        }
}

/// Removing a set that spares the root, either re-parenting orphans or
/// closed under children, keeps the graph invariant.
pub proof fn lemma_remove_preserves_inv(m: Map<u128, IndexEntryV>, rm: Set<u128>, reparent: bool)
    requires
        graph_inv(m),
        !rm.contains(GLOBAL_PROJECT_UUID),
        reparent || removal_closed(m, rm),
    ensures
        graph_inv(spec_remove_map(m, rm, reparent)),
{
    let m2 = spec_remove_map(m, rm, reparent);
    assert(m2.dom().subset_of(m.dom()));
    vstd::set_lib::lemma_len_subset(m2.dom(), m.dom());
    let fuel = dom_fuel(m);
    assert forall|x: u128| #[trigger] m2.contains_key(x) implies match m2[x].parent {
        Some(p) => m2.contains_key(p),
        None => true,
    } && root_steps(m2, x, dom_fuel(m2)) is Some by {
        let d = root_steps(m, x, fuel)->0;
        lemma_remove_node(m, rm, reparent, x, d);
    }
}

/// Helper for [`lemma_remove_preserves_inv`]: every survivor keeps a rooted
/// walk, by induction over its old distance.
proof fn lemma_remove_node(
    m: Map<u128, IndexEntryV>,
    rm: Set<u128>,
    reparent: bool,
    x: u128,
    d: nat,
)
    requires
        graph_inv(m),
        !rm.contains(GLOBAL_PROJECT_UUID),
        reparent || removal_closed(m, rm),
        spec_remove_map(m, rm, reparent).contains_key(x),
        root_steps(m, x, dom_fuel(m)) == Some(d),
    ensures
        root_steps(after_removal(m, rm, reparent), x, dom_fuel(after_removal(m, rm, reparent))) is Some,
        match after_removal(m, rm, reparent)[x].parent {
            Some(p) => after_removal(m, rm, reparent).contains_key(p),
            None => true,
        },
    decreases d,
{
    let m2 = after_removal(m, rm, reparent);
    let fuel = dom_fuel(m);
    vstd::set_lib::lemma_len_subset(m2.dom(), m.dom());
    match m[x].parent {
        None => {
            assert(m2[x] == m[x]);
            assert(root_steps(m2, x, dom_fuel(m2)) == Some(0nat));
        },
        Some(p) => {
            assert(root_steps(m, p, (fuel - 1) as nat) == Some((d - 1) as nat));
            if rm.contains(p) {
                assert(reparent);
                assert(m2[x].parent == Some(GLOBAL_PROJECT_UUID));
                lemma_walk_reaches_global(m, x, d, fuel);
                lemma_global_parent_none(m);
                let g = GLOBAL_PROJECT_UUID;
                assert(m2.contains_key(g));
                assert(m2[g] == m[g]);
                assert(root_steps(m2, g, 0) == Some(0nat));
                assert(root_steps(m2, x, 1) == Some(1nat));
                lemma_root_steps_canonical(m2, x, 1, 1);
            } else {
                assert(m2[x] == m[x]);
                assert(m2.contains_key(p));
                lemma_root_steps_canonical(m, p, (d - 1) as nat, (fuel - 1) as nat);
                lemma_remove_node(m, rm, reparent, p, (d - 1) as nat);
                let dp = root_steps(m2, p, dom_fuel(m2))->0;
                lemma_root_steps_min_fuel(m2, p, dp, dom_fuel(m2));
                assert(root_steps(m2, x, dp + 1) == Some(dp + 1));
                lemma_root_steps_canonical(m2, x, dp + 1, dp + 1);
            }
        },
    }
}

/// Abbreviation used by the removal lemmas.
pub open spec fn after_removal(
    m: Map<u128, IndexEntryV>,
    rm: Set<u128>,
    reparent: bool,
) -> Map<u128, IndexEntryV> {
    spec_remove_map(m, rm, reparent)
}

/// A set of identities that is closed under taking children of `anc`'s
/// subtree contains every node whose walk reaches `anc`.
pub proof fn lemma_descendants_complete(
    m: Map<u128, IndexEntryV>,
    found: Seq<u128>,
    anc: u128,
    x: u128,
    f: nat,
)
    requires
        forall|y: u128|
            m.contains_key(y) && y != anc && (match (#[trigger] m[y]).parent {
                Some(p) => p == anc || found.contains(p),
                None => false,
            }) ==> found.contains(y),
        m.contains_key(x),
        x != anc,
        walk_hits(m, x, anc, f),
    ensures
        found.contains(x),
    decreases f,
{
    let p = m[x].parent->0;
    assert(walk_hits(m, p, anc, (f - 1) as nat));
    if p != anc {
        lemma_descendants_complete(m, found, anc, p, (f - 1) as nat);
    }
}

/// A consecutive parent chain of registered identities starting at `start`.
pub open spec fn is_walk_prefix(m: Map<u128, IndexEntryV>, start: u128, vs: Seq<u128>) -> bool {
    &&& vs.len() > 0
    &&& vs[0] == start
    &&& forall|j: int| 0 <= j < vs.len() ==> m.contains_key(#[trigger] vs[j])
    &&& forall|j: int| 0 <= j < vs.len() - 1 ==> (#[trigger] m[vs[j]]).parent == Some(vs[j + 1])
}

/// Whether a vector of identities holds the given one.
pub fn vec_contains_u128(v: &Vec<u128>, x: u128) -> (r: bool)
    ensures
        r == v@.contains(x),
{
    let mut i: usize = 0;
    while i < v.len()
        invariant
            i <= v.len(),
            forall|j: int| 0 <= j < i ==> v@[j] != x,
        decreases v.len() - i,
    {
        if v[i] == x {
            return true;
        }
        i += 1;
    }
    false
}

/// Where a bounded walk along parent pointers ends.
pub(crate) enum WalkEnd {
    /// A parentless entry was reached.
    Root,
    /// The avoided identity was encountered.
    Hit,
    /// An identity repeated: the walk runs in a cycle through it.
    Repeat(u128),
    /// An entry points at a parent that does not exist.
    Broken { child: u128, missing: u128 },
}

impl GlobalIndex {
    /// Walks from `start` toward the root, reporting whether the walk meets
    /// `avoid`, ends at a parentless entry, repeats an identity, or runs
    /// into a dangling parent pointer.
    pub(crate) fn ancestry_walk(&self, start: u128, avoid: Option<u128>) -> (r: WalkEnd)
        requires
            self.wf(),
        ensures
            ({
                let m = self.projects_map();
                let fuel = dom_fuel(m);
                &&& (r is Root ==> root_steps(m, start, fuel) is Some)
                &&& (root_steps(m, start, fuel) is Some && (avoid is None || !walk_hits(
                    m,
                    start,
                    avoid->0,
                    fuel,
                )) ==> r is Root)
                &&& (r is Hit ==> avoid is Some && walk_hits(m, start, avoid->0, fuel))
                &&& (root_steps(m, start, fuel) is Some && avoid is Some && walk_hits(
                    m,
                    start,
                    avoid->0,
                    fuel,
                ) ==> r is Hit)
                &&& (r matches WalkEnd::Broken { child, missing } ==> !m.contains_key(missing)
                    && ((child == missing && child == start && !m.contains_key(start)) || (
                    m.contains_key(child) && m[child].parent == Some(missing))) && walk_hits(
                    m,
                    start,
                    child,
                    fuel,
                ) && root_steps(m, start, fuel) is None)
                &&& (r matches WalkEnd::Repeat(u) ==> m.contains_key(u) && walk_hits(
                    m,
                    start,
                    u,
                    fuel,
                ) && m[u].parent is Some && walk_hits(m, m[u].parent->0, u, fuel) && root_steps(
                    m,
                    start,
                    fuel,
                ) is None && (exists|vs: Seq<u128>|
                    is_walk_prefix(m, start, vs) && vs.no_duplicates() && (
                    #[trigger] m[vs.last()]).parent == Some(u) && vs.contains(u)))
            }),
    {
        let ghost m = self.projects_map();
        let ghost fuel = dom_fuel(m);
        proof {
            self.lemma_dom_finite();
        }
        let mut visited: Vec<u128> = Vec::new();
        let mut cur: u128 = start;
        loop
            invariant
                self.wf(),
                m == self.projects_map(),
                fuel == dom_fuel(m),
                m.dom().finite(),
                visited@.no_duplicates(),
                forall|j: int| 0 <= j < visited@.len() ==> m.contains_key(#[trigger] visited@[j]),
                forall|j: int|
                    0 <= j < visited@.len() - 1 ==> (#[trigger] m[visited@[j]]).parent == Some(
                        visited@[j + 1],
                    ),
                visited@.len() > 0 ==> visited@[0] == start && m[visited@[visited@.len()
                    - 1]].parent == Some(cur),
                visited@.len() == 0 ==> cur == start,
                visited@.len() <= fuel,
                walk_hits(m, start, cur, visited@.len() as nat),
                root_steps(m, start, fuel) is Some <==> root_steps(m, cur, fuel) is Some,
                (root_steps(m, start, fuel) is Some && avoid is Some && walk_hits(
                    m,
                    start,
                    avoid->0,
                    fuel,
                )) ==> walk_hits(m, cur, avoid->0, fuel),
            decreases fuel - visited@.len(),
        {
            let ghost k = visited@.len() as nat;
            proof {
                lemma_walk_hits_mono(m, start, cur, k, fuel);
            }
            let hit_avoid = match avoid {
                Some(a) => a == cur,
                None => false,
            };
            if hit_avoid {
                return WalkEnd::Hit;
            }
            match self.position_of(cur) {
                None => {
                    // the walk dangles here; name the child that points at it
                    let child = if visited.len() > 0 {
                        visited[visited.len() - 1]
                    } else {
                        cur
                    };
                    proof {
                        if root_steps(m, cur, fuel) is Some {
                            assert(m.contains_key(cur));
                        }
                        if visited@.len() > 0 {
                            lemma_consecutive_hits(m, visited@, 0, visited@.len() - 1);
                            lemma_walk_hits_mono(
                                m,
                                start,
                                visited@[visited@.len() - 1],
                                (visited@.len() - 1) as nat,
                                fuel,
                            );
                        }
                    }
                    return WalkEnd::Broken { child, missing: cur };
                },
                Some(pos) => {
                    proof {
                        lemma_assoc_get(self.kv(), pos as int);
                        assert(self.kv()[pos as int] == self.projects@[pos as int].deep_view());
                    }
                    if vec_contains_u128(&visited, cur) {
                        proof {
                            let j = choose|j: int|
                                0 <= j < visited@.len() && visited@[j] == cur;
                            if j < visited@.len() - 1 {
                                lemma_consecutive_hits(
                                    m,
                                    visited@,
                                    j + 1,
                                    visited@.len() - 1,
                                );
                                lemma_walk_hits_extend(
                                    m,
                                    visited@[j + 1],
                                    visited@[visited@.len() - 1],
                                    (visited@.len() - 1 - (j + 1)) as nat,
                                    cur,
                                );
                                assert(m[cur].parent == Some(visited@[j + 1]));
                                lemma_walk_hits_mono(
                                    m,
                                    visited@[j + 1],
                                    cur,
                                    (visited@.len() - 1 - j) as nat,
                                    fuel,
                                );
                            } else {
                                assert(m[visited@[visited@.len() - 1]].parent == Some(cur));
                                assert(m[cur].parent == Some(cur));
                                assert(walk_hits(m, cur, cur, fuel));
                            }
                            lemma_cycle_no_root(m, cur, m[cur].parent->0, fuel, fuel);
                            // the distinct nodes visited so far witness that
                            // this is the first identity met twice
                            assert(is_walk_prefix(m, start, visited@) && visited@.no_duplicates()
                                && m[visited@.last()].parent == Some(cur) && visited@.contains(
                                cur,
                            ));
                        }
                        return WalkEnd::Repeat(cur);
                    }
                    let parent = self.projects[pos].1.parent;
                    match parent {
                        None => {
                            proof {
                                assert(root_steps(m, cur, fuel) == Some(0nat));
                                if avoid is Some && walk_hits(m, start, avoid->0, fuel)
                                    && root_steps(m, start, fuel) is Some {
                                    assert(walk_hits(m, cur, avoid->0, fuel));
                                    assert(false);
                                }
                            }
                            return WalkEnd::Root;
                        },
                        Some(p) => {
                            let ghost old_visited = visited@;
                            visited.push(cur);
                            proof {
                                assert(visited@ == old_visited.push(cur));
                                assert(visited@[visited@.len() - 1] == cur);
                                assert forall|j: int| 0 <= j < visited@.len() implies
                                    m.contains_key(#[trigger] visited@[j]) by {
                                    if j < visited@.len() - 1 {
                                        assert(visited@[j] == old_visited[j]);
                                    }
                                }
                                assert(visited@.no_duplicates());
                                // a distinct sequence of entries is no longer
                                // than the number of entries
                                visited@.unique_seq_to_set();
                                assert(visited@.to_set().subset_of(m.dom())) by {
                                    assert forall|x: u128| visited@.to_set().contains(x) implies
                                        m.dom().contains(x) by {
                                        let j = choose|j: int|
                                            0 <= j < visited@.len() && visited@[j] == x;
                                        assert(m.contains_key(visited@[j]));
                                    }
                                }
                                vstd::set_lib::lemma_len_subset(visited@.to_set(), m.dom());
                                lemma_walk_hits_extend(m, start, cur, k, p);
                                lemma_root_steps_parent_iff(m, cur, p);
                                if root_steps(m, start, fuel) is Some && avoid is Some
                                    && walk_hits(m, start, avoid->0, fuel) {
                                    let a = avoid->0;
                                    assert(walk_hits(m, cur, a, fuel));
                                    assert(cur != a);
                                    assert(walk_hits(m, p, a, (fuel - 1) as nat));
                                    lemma_walk_hits_mono(m, p, a, (fuel - 1) as nat, fuel);
                                }
                            }
                            cur = p;
                        },
                    }
                },
            }
        }
    }

    /// Whether the graph holds the identity.
    pub fn contains_project(&self, uuid: u128) -> (r: bool)
        requires
            self.wf(),
        ensures
            r == self.projects_map().contains_key(uuid),
    {
        match self.position_of(uuid) {
            Some(i) => {
                proof {
                    crate::smap::lemma_assoc_last_witness(self.kv(), uuid, i as int);
                }
                true
            },
            None => false,
        }
    }

    /// The position of the identity's pair, if any.
    pub(crate) fn position_of(&self, uuid: u128) -> (r: Option<usize>)
        ensures
            match r {
                Some(i) => i < self.kv().len() && self.kv()[i as int].0 == uuid && forall|j: int|
                    0 <= j < i ==> (#[trigger] self.kv()[j]).0 != uuid,
                None => !self.projects_map().contains_key(uuid),
            },
    {
        let ghost s = self.kv();
        let mut i: usize = 0;
        while i < self.projects.len()
            invariant
                i <= self.projects.len(),
                s == self.kv(),
                forall|j: int| 0 <= j < i ==> (#[trigger] s[j]).0 != uuid,
            decreases self.projects.len() - i,
        {
            proof {
                assert(s[i as int] == self.projects@[i as int].deep_view());
            }
            if self.projects[i].0 == uuid {
                return Some(i);
            }
            i += 1;
        }
        proof {
            lemma_assoc_absent(s, uuid);
        }
        None
    }

    /// Looks an entry up by identity.
    pub fn get_entry<'a>(&'a self, uuid: u128) -> (r: Option<&'a IndexEntry>)
        requires
            self.wf(),
        ensures
            match r {
                Some(e) => self.projects_map().contains_key(uuid) && e.deep_view()
                    == self.projects_map()[uuid],
                None => !self.projects_map().contains_key(uuid),
            },
    {
        let ghost s = self.kv();
        match self.position_of(uuid) {
            Some(i) => {
                proof {
                    lemma_assoc_get(s, i as int);
                    assert(s[i as int] == self.projects@[i as int].deep_view());
                }
                Some(&self.projects[i].1)
            },
            None => None,
        }
    }

    /// The graph's entry count.
    pub fn project_count(&self) -> (r: usize)
        ensures
            r == self.kv().len(),
    {
        self.projects.len()
    }

    /// With distinct identities, every stored pair is the map's entry.
    pub proof fn lemma_pairs_authoritative(&self)
        requires
            self.wf(),
        ensures
            forall|j: int| 0 <= j < self.kv().len() ==> self.projects_map().contains_key(
                (#[trigger] self.kv()[j]).0,
            ) && self.projects_map()[self.kv()[j].0] == self.kv()[j].1,
    {
        assert forall|j: int| 0 <= j < self.kv().len() implies self.projects_map().contains_key(
            (#[trigger] self.kv()[j]).0,
        ) && self.projects_map()[self.kv()[j].0] == self.kv()[j].1 by {
            assert forall|l: int| j < l < self.kv().len() implies (#[trigger] self.kv()[l]).0
                != self.kv()[j].0 by {
                assert(assoc_distinct(self.kv()));
            }
            lemma_assoc_get(self.kv(), j);
        }
    }

    /// The graph map has finitely many entries, no more than the pair count.
    pub proof fn lemma_dom_finite(&self)
        ensures
            self.projects_map().dom().finite(),
    {
        lemma_assoc_finite(self.kv());
    }

    /// Finds a child of `parent_uuid` carrying the given name.
    pub fn find_child_by_name(&self, parent_uuid: u128, child_name: &str) -> (r: Option<u128>)
        requires
            self.wf(),
        ensures
            match r {
                Some(c) => self.projects_map().contains_key(c) && self.projects_map()[c].parent
                    == Some(parent_uuid) && self.projects_map()[c].name == child_name@,
                None => !has_child_named(self.projects_map(), Some(parent_uuid), child_name@),
            },
    {
        let ghost s = self.kv();
        let ghost m = self.projects_map();
        proof {
            self.lemma_pairs_authoritative();
        }
        let mut i: usize = 0;
        while i < self.projects.len()
            invariant
                i <= self.projects.len(),
                s == self.kv(),
                m == self.projects_map(),
                self.wf(),
                forall|j: int|
                    0 <= j < i ==> !((#[trigger] s[j]).1.parent == Some(parent_uuid) && s[j].1.name
                        == child_name@),
            decreases self.projects.len() - i,
        {
            proof {
                assert(s[i as int] == self.projects@[i as int].deep_view());
            }
            let is_child = match self.projects[i].1.parent {
                Some(p) => p == parent_uuid,
                None => false,
            };
            if is_child && str_eq(self.projects[i].1.name.as_str(), child_name) {
                proof {
                    self.lemma_pairs_authoritative();
                }
                return Some(self.projects[i].0);
            }
            i += 1;
        }
        proof {
            if has_child_named(m, Some(parent_uuid), child_name@) {
                let c = choose|c: u128|
                    m.contains_key(c) && (#[trigger] m[c]).parent == Some(parent_uuid)
                        && m[c].name == child_name@;
                crate::smap::lemma_assoc_contains(s, c);
                let j = choose|j: int| 0 <= j < s.len() && (#[trigger] s[j]).0 == c;
                self.lemma_pairs_authoritative();
                assert(s[j].1 == m[c]);
                assert(false);
            }
        }
        None
    }

    /// Whether an entry other than `exclude` has the given parent and name.
    pub fn exists_other_entry(&self, exclude: u128, parent: Option<u128>, name: &str) -> (r: bool)
        requires
            self.wf(),
        ensures
            r == has_other_entry_named(self.projects_map(), exclude, parent, name@),
    {
        let ghost s = self.kv();
        let ghost m = self.projects_map();
        proof {
            self.lemma_pairs_authoritative();
        }
        let mut i: usize = 0;
        while i < self.projects.len()
            invariant
                i <= self.projects.len(),
                s == self.kv(),
                m == self.projects_map(),
                self.wf(),
                forall|j: int|
                    0 <= j < i ==> !((#[trigger] s[j]).0 != exclude && s[j].1.parent == parent
                        && s[j].1.name == name@),
            decreases self.projects.len() - i,
        {
            proof {
                assert(s[i as int] == self.projects@[i as int].deep_view());
            }
            let same_parent = match (&self.projects[i].1.parent, &parent) {
                (None, None) => true,
                (Some(a), Some(b)) => *a == *b,
                _ => false,
            };
            if self.projects[i].0 != exclude && same_parent && str_eq(
                self.projects[i].1.name.as_str(),
                name,
            ) {
                proof {
                    self.lemma_pairs_authoritative();
                    assert(m.contains_key(s[i as int].0) && m[s[i as int].0] == s[i as int].1);
                }
                return true;
            }
            i += 1;
        }
        proof {
            if has_other_entry_named(m, exclude, parent, name@) {
                let c = choose|c: u128|
                    m.contains_key(c) && c != exclude && (#[trigger] m[c]).parent == parent
                        && m[c].name == name@;
                crate::smap::lemma_assoc_contains(s, c);
                let j = choose|j: int| 0 <= j < s.len() && (#[trigger] s[j]).0 == c;
                self.lemma_pairs_authoritative();
                assert(s[j].1 == m[c]);
                assert(false);
            }
        }
        false
    }

    /// Finds the identity registered at exactly the given path.
    pub fn find_project_by_path(&self, path: &str) -> (r: Option<u128>)
        requires
            self.wf(),
        ensures
            match r {
                Some(u) => self.projects_map().contains_key(u) && self.projects_map()[u].path
                    == path@,
                None => forall|u: u128|
                    self.projects_map().contains_key(u) ==> (#[trigger] self.projects_map()[u]).path
                        != path@,
            },
    {
        let ghost s = self.kv();
        let ghost m = self.projects_map();
        proof {
            self.lemma_pairs_authoritative();
        }
        let mut i: usize = 0;
        while i < self.projects.len()
            invariant
                i <= self.projects.len(),
                s == self.kv(),
                m == self.projects_map(),
                self.wf(),
                forall|j: int| 0 <= j < i ==> (#[trigger] s[j]).1.path != path@,
            decreases self.projects.len() - i,
        {
            proof {
                assert(s[i as int] == self.projects@[i as int].deep_view());
            }
            if str_eq(self.projects[i].1.path.as_str(), path) {
                proof {
                    self.lemma_pairs_authoritative();
                }
                return Some(self.projects[i].0);
            }
            i += 1;
        }
        proof {
            assert forall|u: u128| m.contains_key(u) implies (#[trigger] m[u]).path != path@ by {
                crate::smap::lemma_assoc_contains(s, u);
                let j = choose|j: int| 0 <= j < s.len() && (#[trigger] s[j]).0 == u;
                self.lemma_pairs_authoritative();
                assert(s[j].1 == m[u]);
            }
        }
        None
    }

    /// Lists the identities of the children of `parent_uuid`, in store order.
    pub fn children_of(&self, parent_uuid: u128) -> (r: Vec<u128>)
        requires
            self.wf(),
        ensures
            forall|i: int|
                0 <= i < r@.len() ==> self.projects_map().contains_key(#[trigger] r@[i])
                    && self.projects_map()[r@[i]].parent == Some(parent_uuid),
            forall|c: u128|
                self.projects_map().contains_key(c) && (#[trigger] self.projects_map()[c]).parent
                    == Some(parent_uuid) ==> r@.contains(c),
    {
        let ghost s = self.kv();
        let ghost m = self.projects_map();
        proof {
            self.lemma_pairs_authoritative();
        }
        let mut r: Vec<u128> = Vec::new();
        let mut i: usize = 0;
        while i < self.projects.len()
            invariant
                i <= self.projects.len(),
                s == self.kv(),
                m == self.projects_map(),
                self.wf(),
                forall|l: int|
                    0 <= l < r@.len() ==> m.contains_key(#[trigger] r@[l]) && m[r@[l]].parent
                        == Some(parent_uuid),
                forall|j: int|
                    0 <= j < i && (#[trigger] s[j]).1.parent == Some(parent_uuid) ==> r@.contains(
                        s[j].0,
                    ),
            decreases self.projects.len() - i,
        {
            proof {
                assert(s[i as int] == self.projects@[i as int].deep_view());
                self.lemma_pairs_authoritative();
            }
            let is_child = match self.projects[i].1.parent {
                Some(p) => p == parent_uuid,
                None => false,
            };
            let ghost old_r = r@;
            if is_child {
                r.push(self.projects[i].0);
            }
            proof {
                assert forall|j: int|
                    0 <= j < i + 1 && (#[trigger] s[j]).1.parent == Some(parent_uuid) implies
                    r@.contains(s[j].0) by {
                    if j < i {
                        assert(old_r.contains(s[j].0));
                        let l = choose|l: int| 0 <= l < old_r.len() && old_r[l] == s[j].0;
                        assert(r@[l] == s[j].0);
                    } else {
                        assert(is_child);
                        assert(r@[r@.len() - 1] == s[j].0);
                    }
                }
            }
            i += 1;
        }
        proof {
            assert forall|c: u128|
                m.contains_key(c) && (#[trigger] m[c]).parent == Some(parent_uuid) implies
                r@.contains(c) by {
                crate::smap::lemma_assoc_contains(s, c);
                let j = choose|j: int| 0 <= j < s.len() && (#[trigger] s[j]).0 == c;
                self.lemma_pairs_authoritative();
                assert(s[j].1 == m[c]);
            }
        }
        r
    }
}

} // verus!
