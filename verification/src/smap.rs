//! A string-keyed map backed by a vector of pairs with distinct keys.
//!
//! Configuration sections (`vars`, `env`, `commands`, `open_with`) are small
//! hand-written tables, so a scan-based map keeps the reasoning simple: its
//! view is a mathematical `Map` built by folding the pairs left to right.

use vstd::prelude::*;

use crate::strutil::str_eq;

verus! {

/// The map denoted by an association list: later pairs overwrite earlier ones.
pub open spec fn assoc_map<K, U>(pairs: Seq<(K, U)>) -> Map<K, U>
    decreases pairs.len(),
{
    if pairs.len() == 0 {
        Map::empty()
    } else {
        assoc_map(pairs.drop_last()).insert(pairs.last().0, pairs.last().1)
    }
}

/// No pair of the list carries the key.
pub open spec fn assoc_absent<K, U>(pairs: Seq<(K, U)>, key: K) -> bool {
    forall|j: int| 0 <= j < pairs.len() ==> (#[trigger] pairs[j]).0 != key
}

/// The keys of the list are pairwise distinct.
pub open spec fn assoc_distinct<K, U>(pairs: Seq<(K, U)>) -> bool {
    forall|j: int, l: int|
        0 <= j < l < pairs.len() ==> (#[trigger] pairs[j]).0 != (#[trigger] pairs[l]).0
}

/// A pair whose key has no later duplicate gives the map's value at that key.
pub proof fn lemma_assoc_get<K, U>(pairs: Seq<(K, U)>, j: int)
    requires
        0 <= j < pairs.len(),
        forall|l: int| j < l < pairs.len() ==> (#[trigger] pairs[l]).0 != pairs[j].0,
    ensures
        assoc_map(pairs).contains_key(pairs[j].0),
        assoc_map(pairs)[pairs[j].0] == pairs[j].1,
    decreases pairs.len(),
{
    if j == pairs.len() - 1 {
    } else {
        assert(pairs.drop_last()[j] == pairs[j]);
        lemma_assoc_get(pairs.drop_last(), j);
    }
}

/// A key that appears on no pair is not in the map.
pub proof fn lemma_assoc_absent<K, U>(pairs: Seq<(K, U)>, key: K)
    requires
        assoc_absent(pairs, key),
    ensures
        !assoc_map(pairs).contains_key(key),
    decreases pairs.len(),
{
    if pairs.len() > 0 {
        assert(forall|j: int|
            0 <= j < pairs.drop_last().len() ==> #[trigger] pairs.drop_last()[j] == pairs[j]);
        lemma_assoc_absent(pairs.drop_last(), key);
    }
}

/// Every key of the map appears on some pair.
pub proof fn lemma_assoc_contains<K, U>(pairs: Seq<(K, U)>, key: K)
    requires
        assoc_map(pairs).contains_key(key),
    ensures
        exists|j: int| 0 <= j < pairs.len() && (#[trigger] pairs[j]).0 == key,
{
    if assoc_absent(pairs, key) {
        lemma_assoc_absent(pairs, key);
        assert(false);
    }
}

/// The domain of the map is exactly the set of listed keys.
pub proof fn lemma_assoc_dom<K, U>(pairs: Seq<(K, U)>, key: K)
    ensures
        assoc_map(pairs).contains_key(key) <==> exists|j: int|
            0 <= j < pairs.len() && (#[trigger] pairs[j]).0 == key,
{
    if assoc_map(pairs).contains_key(key) {
        lemma_assoc_contains(pairs, key);
    } else if exists|j: int| 0 <= j < pairs.len() && (#[trigger] pairs[j]).0 == key {
        let j = choose|j: int| 0 <= j < pairs.len() && (#[trigger] pairs[j]).0 == key;
        lemma_assoc_last_witness(pairs, key, j);
        assert(false);
    }
}

/// From any occurrence of a key, a last occurrence exists and fixes the value.
pub proof fn lemma_assoc_last_witness<K, U>(pairs: Seq<(K, U)>, key: K, j: int)
    requires
        0 <= j < pairs.len(),
        pairs[j].0 == key,
    ensures
        assoc_map(pairs).contains_key(key),
    decreases pairs.len(),
{
    if pairs[pairs.len() - 1].0 == key {
        lemma_assoc_get(pairs, pairs.len() - 1);
    } else {
        assert(pairs.drop_last()[j] == pairs[j]);
        lemma_assoc_last_witness(pairs.drop_last(), key, j);
    }
}

/// Dropping a pair of a distinct-keyed list removes exactly its key.
pub proof fn lemma_assoc_remove<K, U>(pairs: Seq<(K, U)>, i: int)
    requires
        assoc_distinct(pairs),
        0 <= i < pairs.len(),
    ensures
        assoc_distinct(pairs.remove(i)),
        assoc_map(pairs.remove(i)) == assoc_map(pairs).remove(pairs[i].0),
{
    let s2 = pairs.remove(i);
    let k = pairs[i].0;
    assert forall|j: int, l: int| 0 <= j < l < s2.len() implies (#[trigger] s2[j]).0 != (
    #[trigger] s2[l]).0 by {
        let j0 = if j < i { j } else { j + 1 };
        let l0 = if l < i { l } else { l + 1 };
        assert(s2[j] == pairs[j0]);
        assert(s2[l] == pairs[l0]);
    }
    assert forall|key: K| #[trigger]
        assoc_map(s2).contains_key(key) || assoc_map(pairs).remove(k).contains_key(key) implies
        assoc_map(s2).contains_key(key) && assoc_map(pairs).remove(k).contains_key(key)
        && assoc_map(s2)[key] == assoc_map(pairs).remove(k)[key] by {
        if assoc_map(s2).contains_key(key) {
            lemma_assoc_contains(s2, key);
            let j = choose|j: int| 0 <= j < s2.len() && (#[trigger] s2[j]).0 == key;
            let j0 = if j < i { j } else { j + 1 };
            assert(s2[j] == pairs[j0]);
            assert(key != k);
            assert forall|l: int| j < l < s2.len() implies (#[trigger] s2[l]).0 != key by {
                let l0 = if l < i { l } else { l + 1 };
                assert(s2[l] == pairs[l0]);
            }
            lemma_assoc_get(s2, j);
            assert forall|l: int| j0 < l < pairs.len() implies (#[trigger] pairs[l]).0 != key by {}
            lemma_assoc_get(pairs, j0);
        } else if assoc_map(pairs).remove(k).contains_key(key) {
            lemma_assoc_contains(pairs, key);
            let j0 = choose|j0: int| 0 <= j0 < pairs.len() && (#[trigger] pairs[j0]).0 == key;
            assert(key != k);
            assert(j0 != i);
            let j = if j0 < i { j0 } else { j0 - 1 };
            assert(s2[j] == pairs[j0]);
            lemma_assoc_last_witness(s2, key, j);
            assert(false);
        }
    }
    assert(assoc_map(s2) =~= assoc_map(pairs).remove(k));
}

/// A list's map holds no more entries than the list holds pairs.
pub proof fn lemma_assoc_len<K, U>(pairs: Seq<(K, U)>)
    ensures
        assoc_map(pairs).dom().finite(),
        assoc_map(pairs).dom().len() <= pairs.len(),
    decreases pairs.len(),
{
    broadcast use vstd::set::group_set_axioms;

    if pairs.len() > 0 {
        lemma_assoc_len(pairs.drop_last());
    }
}

/// The map of an association list has a finite domain.
pub proof fn lemma_assoc_finite<K, U>(pairs: Seq<(K, U)>)
    ensures
        assoc_map(pairs).dom().finite(),
    decreases pairs.len(),
{
    if pairs.len() > 0 {
        lemma_assoc_finite(pairs.drop_last());
    }
}

/// A clone whose mathematical content provably equals the original.
///
/// Verus learns nothing from a derived `Clone` on a compound type, so types
/// stored in maps and snapshots implement this instead.
pub trait DeepClone: DeepView + Sized {
    fn deep_clone(&self) -> (r: Self)
        ensures
            r.deep_view() == self.deep_view(),
    ;
}

impl DeepClone for String {
    fn deep_clone(&self) -> (r: Self)
        ensures
            r.deep_view() == self.deep_view(),
    {
        self.clone()
    }
}

impl DeepClone for u64 {
    fn deep_clone(&self) -> (r: Self)
        ensures
            r.deep_view() == self.deep_view(),
    {
        *self
    }
}

impl DeepClone for u128 {
    fn deep_clone(&self) -> (r: Self)
        ensures
            r.deep_view() == self.deep_view(),
    {
        *self
    }
}

impl<T: DeepClone> DeepClone for Option<T> {
    fn deep_clone(&self) -> (r: Self)
        ensures
            r.deep_view() == self.deep_view(),
    {
        match self {
            Some(v) => Some(v.deep_clone()),
            None => None,
        }
    }
}

impl<A: DeepClone, B: DeepClone> DeepClone for (A, B) {
    fn deep_clone(&self) -> (r: Self)
        ensures
            r.deep_view() == self.deep_view(),
    {
        (self.0.deep_clone(), self.1.deep_clone())
    }
}

impl<T: DeepClone> DeepClone for Vec<T> {
    fn deep_clone(&self) -> (r: Self)
        ensures
            r.deep_view() == self.deep_view(),
    {
        let mut out: Vec<T> = Vec::new();
        let ghost dv = self.deep_view();
        proof {
            assert(out.deep_view() =~= dv.take(0));
        }
        let mut i: usize = 0;
        while i < self.len()
            invariant
                i <= self.len(),
                dv == self.deep_view(),
                out@.len() == i,
                out.deep_view() == dv.take(i as int),
            decreases self.len() - i,
        {
            let ghost pre = out@;
            let item = self[i].deep_clone();
            proof {
                assert(item.deep_view() == dv[i as int]);
            }
            out.push(item);
            proof {
                assert forall|j: int| 0 <= j < out@.len() implies out.deep_view()[j] == dv.take(
                    i + 1,
                )[j] by {
                    if j < i {
                        assert(out@[j] == pre[j]);
                        assert(pre[j].deep_view() == dv.take(i as int)[j]);
                    } else {
                        assert(out@[j] == item);
                    }
                }
                assert(out.deep_view() =~= dv.take(i + 1));
            }
            i += 1;
        }
        proof {
            assert(dv.take(self.len() as int) =~= dv);
        }
        out
    }
}

/// A map from names to values, stored as pairs with distinct keys.
pub struct SMap<V> {
    pairs: Vec<(String, V)>,
}

impl<V: DeepView> SMap<V> {
    /// The stored pairs, abstracted to sequences of views.
    pub closed spec fn kv(&self) -> Seq<(Seq<char>, V::V)> {
        self.pairs.deep_view()
    }

    /// Keys are pairwise distinct.
    pub closed spec fn wf(&self) -> bool {
        assoc_distinct(self.kv())
    }

    /// The map a well-formed value denotes.
    pub open spec fn as_map(&self) -> Map<Seq<char>, V::V> {
        assoc_map(self.kv())
    }
}

impl<V: DeepView> View for SMap<V> {
    type V = Map<Seq<char>, V::V>;

    open spec fn view(&self) -> Map<Seq<char>, V::V> {
        self.as_map()
    }
}

impl<V: DeepView> SMap<V> {
    /// The empty map.
    pub fn new() -> (r: Self)
        ensures
            r@ == Map::<Seq<char>, V::V>::empty(),
            r.wf(),
            r.kv() == Seq::<(Seq<char>, V::V)>::empty(),
    {
        let pairs: Vec<(String, V)> = Vec::new();
        proof {
            assert(pairs.deep_view() =~= Seq::<(Seq<char>, V::V)>::empty());
        }
        SMap { pairs }
    }

    /// Whether the map holds no entry.
    pub fn is_empty(&self) -> (r: bool)
        requires
            self.wf(),
        ensures
            r == (self@ =~= Map::<Seq<char>, V::V>::empty()),
    {
        let r = self.pairs.len() == 0;
        proof {
            if r {
                assert(self.kv() =~= Seq::<(Seq<char>, V::V)>::empty());
            } else {
                let last = self.kv().len() - 1;
                lemma_assoc_get(self.kv(), last);
                assert(self@.contains_key(self.kv()[last].0));
            }
        }
        r
    }

    /// Looks a key up.
    pub fn get<'a>(&'a self, key: &str) -> (r: Option<&'a V>)
        requires
            self.wf(),
        ensures
            match r {
                Some(v) => self@.contains_key(key@) && v.deep_view() == self@[key@],
                None => !self@.contains_key(key@),
            },
    {
        let ghost s = self.kv();
        let mut i: usize = 0;
        while i < self.pairs.len()
            invariant
                i <= self.pairs.len(),
                s == self.kv(),
                self.wf(),
                forall|j: int| 0 <= j < i ==> (#[trigger] s[j]).0 != key@,
            decreases self.pairs.len() - i,
        {
            if str_eq(self.pairs[i].0.as_str(), key) {
                proof {
                    assert(s[i as int].0 == key@);
                    lemma_assoc_get(s, i as int);
                }
                return Some(&self.pairs[i].1);
            }
            i += 1;
        }
        proof {
            lemma_assoc_absent(s, key@);
        }
        None
    }

    /// The position of the first pair carrying the key, if any.
    fn index_of(&self, key: &str) -> (r: Option<usize>)
        ensures
            match r {
                Some(i) => i < self.kv().len() && self.kv()[i as int].0 == key@ && forall|j: int|
                    0 <= j < i ==> (#[trigger] self.kv()[j]).0 != key@,
                None => assoc_absent(self.kv(), key@),
            },
    {
        let ghost s = self.kv();
        let mut i: usize = 0;
        while i < self.pairs.len()
            invariant
                i <= self.pairs.len(),
                s == self.kv(),
                forall|j: int| 0 <= j < i ==> (#[trigger] s[j]).0 != key@,
            decreases self.pairs.len() - i,
        {
            let hit = str_eq(self.pairs[i].0.as_str(), key);
            proof {
                assert(s[i as int] == self.pairs@[i as int].deep_view());
                assert(s[i as int].0 == self.pairs@[i as int].0@);
            }
            if hit {
                return Some(i);
            }
            i += 1;
        }
        None
    }

    /// Inserts a pair, replacing the entry under an equal key.
    pub fn insert(&mut self, key: String, value: V)
        requires
            old(self).wf(),
        ensures
            final(self).wf(),
            final(self)@ == old(self)@.insert(key@, value.deep_view()),
    {
        let ghost s0 = self.kv();
        let ghost kd = key@;
        let ghost vd = value.deep_view();
        let hit = self.index_of(key.as_str());
        let (found, i): (bool, usize) = match hit {
            Some(i) => (true, i),
            None => (false, 0),
        };
        if found {
            self.pairs.remove(i);
            proof {
                assert(self.kv() =~= s0.remove(i as int));
            }
        }
        let ghost s1 = self.kv();
        self.pairs.push((key, value));
        proof {
            assert(self.kv() =~= s1.push((kd, vd)));
            // distinctness: s1 has no pair keyed kd
            if found {
                assert forall|j: int| 0 <= j < s1.len() implies (#[trigger] s1[j]).0 != kd by {
                    if j < i {
                    } else {
                        assert(s1[j] == s0[j + 1]);
                    }
                }
            }
            assert(assoc_absent(s1, kd));
            assert(assoc_distinct(s1)) by {
                if found {
                    assert forall|j: int, l: int| 0 <= j < l < s1.len() implies (
                    #[trigger] s1[j]).0 != (#[trigger] s1[l]).0 by {
                        let j0 = if j < i { j } else { j + 1 };
                        let l0 = if l < i { l } else { l + 1 };
                        assert(s1[j] == s0[j0]);
                        assert(s1[l] == s0[l0]);
                    }
                }
            }
            assert(final(self).wf()) by {
                let s2 = s1.push((kd, vd));
                assert forall|j: int, l: int| 0 <= j < l < s2.len() implies (
                #[trigger] s2[j]).0 != (#[trigger] s2[l]).0 by {
                    if l == s2.len() - 1 {
                        assert(s2[j] == s1[j]);
                        assert(assoc_absent(s1, kd));
                    } else {
                        assert(s2[j] == s1[j]);
                        assert(s2[l] == s1[l]);
                    }
                }
            }
            // view: dropping the old pair then pushing equals plain insert
            assert(final(self)@ =~= old(self)@.insert(kd, vd)) by {
                let m_new = assoc_map(s1.push((kd, vd)));
                let m_old = assoc_map(s0);
                assert(s1.push((kd, vd)).drop_last() =~= s1);
                assert(m_new == assoc_map(s1).insert(kd, vd));
                assert forall|k: Seq<char>| #[trigger]
                    m_new.contains_key(k) || m_old.insert(kd, vd).contains_key(k) implies
                    m_new.contains_key(k) && m_old.insert(kd, vd).contains_key(k) && m_new[k]
                    == m_old.insert(kd, vd)[k] by {
                    if k == kd {
                        assert(m_new.contains_key(k) && m_new[k] == vd);
                    } else {
                        lemma_assoc_dom(s1, k);
                        lemma_assoc_dom(s0, k);
                        if found {
                            assert forall|j: int| 0 <= j < s0.len() && (#[trigger] s0[j]).0 == k
                                implies exists|l: int|
                                0 <= l < s1.len() && (#[trigger] s1[l]).0 == k by {
                                let l0 = if j < i { j } else { j - 1 };
                                assert(j != i);
                                assert(s1[l0] == s0[j]);
                            }
                            assert forall|j: int| 0 <= j < s1.len() && (#[trigger] s1[j]).0 == k
                                implies exists|l: int|
                                0 <= l < s0.len() && (#[trigger] s0[l]).0 == k by {
                                let l0 = if j < i { j } else { j + 1 };
                                assert(s0[l0] == s1[j]);
                            }
                        }
                        if assoc_map(s1).contains_key(k) {
                            lemma_assoc_contains(s1, k);
                            let j = choose|j: int|
                                0 <= j < s1.len() && (#[trigger] s1[j]).0 == k;
                            assert forall|l: int| j < l < s1.len() implies (
                            #[trigger] s1[l]).0 != k by {
                                assert(assoc_distinct(s1));
                            }
                            lemma_assoc_get(s1, j);
                            let j0 = if found && j >= i { j + 1 } else { j };
                            assert(s0[j0] == s1[j]);
                            assert forall|l: int| j0 < l < s0.len() implies (
                            #[trigger] s0[l]).0 != k by {
                                let l1 = if found && l > i { l - 1 } else { l };
                                if found && l == i {
                                } else {
                                    assert(s1[l1] == s0[l]);
                                    assert(assoc_distinct(s1));
                                    if l1 == j {
                                        assert(false);
                                    }
                                }
                            }
                            lemma_assoc_get(s0, j0);
                        }
                    }
                }
            }
        }
    }

    /// Inserts every pair of `other`, overwriting equal keys.
    pub fn extend(&mut self, other: &SMap<V>) where V: DeepClone
        requires
            old(self).wf(),
            other.wf(),
        ensures
            final(self).wf(),
            final(self)@ == old(self)@.union_prefer_right(other@),
    {
        let ghost os = other.kv();
        let mut i: usize = 0;
        while i < other.pairs.len()
            invariant
                i <= other.pairs.len(),
                os == other.kv(),
                other.wf(),
                self.wf(),
                self@ == old(self)@.union_prefer_right(assoc_map(os.take(i as int))),
            decreases other.pairs.len() - i,
        {
            let key = other.pairs[i].0.deep_clone();
            let value = other.pairs[i].1.deep_clone();
            proof {
                assert(key@ == os[i as int].0);
                assert(value.deep_view() == os[i as int].1);
            }
            self.insert(key, value);
            proof {
                let pre = os.take(i as int);
                let next = os.take(i + 1);
                assert(next.drop_last() =~= pre);
                assert(next.last() == os[i as int]);
                assert(assoc_map(next) == assoc_map(pre).insert(os[i as int].0, os[i as int].1));
                assert(self@ =~= old(self)@.union_prefer_right(assoc_map(next)));
            }
            i += 1;
        }
        proof {
            assert(os.take(os.len() as int) =~= os);
        }
    }

    /// The stored pairs, for iteration and for serialization by callers.
    pub fn entries(&self) -> (r: &Vec<(String, V)>)
        ensures
            r.deep_view() == self.kv(),
            assoc_map(r.deep_view()) == self@,
    {
        &self.pairs
    }

    /// Rebuilds a map from listed pairs; later pairs win over earlier ones.
    pub fn from_pairs(pairs: Vec<(String, V)>) -> (r: Self) where V: DeepClone
        ensures
            r.wf(),
            r@ == assoc_map(pairs.deep_view()),
    {
        let mut r = SMap::new();
        let ghost s = pairs.deep_view();
        let mut i: usize = 0;
        while i < pairs.len()
            invariant
                i <= pairs.len(),
                s == pairs.deep_view(),
                r.wf(),
                r@ == assoc_map(s.take(i as int)),
            decreases pairs.len() - i,
        {
            let key = pairs[i].0.deep_clone();
            let value = pairs[i].1.deep_clone();
            r.insert(key, value);
            proof {
                let next = s.take(i + 1);
                assert(next.drop_last() =~= s.take(i as int));
                assert(next.last() == s[i as int]);
            }
            i += 1;
        }
        proof {
            assert(s.take(s.len() as int) =~= s);
        }
        r
    }
}

impl<V: DeepClone> DeepClone for SMap<V> {
    fn deep_clone(&self) -> (r: Self)
        ensures
            r.deep_view() == self.deep_view(),
    {
        SMap { pairs: self.pairs.deep_clone() }
    }
}

impl<V: DeepClone> SMap<V> {
    /// A copy with the same pairs, keeping well-formedness visible.
    pub fn duplicate(&self) -> (r: Self)
        ensures
            r.kv() == self.kv(),
            r.wf() == self.wf(),
            r@ == self@,
    {
        SMap { pairs: self.pairs.deep_clone() }
    }
}

impl<V: DeepView> DeepView for SMap<V> {
    type V = Map<Seq<char>, V::V>;

    open spec fn deep_view(&self) -> Map<Seq<char>, V::V> {
        self@
    }
}

} // verus!
