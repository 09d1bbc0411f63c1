//! A keyed map held as a vector of entries in insertion order, with a
//! `Map` view for contracts.
//!
//! The collection store keys its tables by shift number and by file id;
//! lookups go through the map view, merges are stated as
//! `union_prefer_right`, and the entry order stays available for the
//! folds that walk a table in insertion order.

use vstd::prelude::*;

verus! {

/// A key usable in an [`AssocMap`]: equality of values decides equality
/// of views.
pub trait AssocKey: DeepView + Sized {
    /// Whether two keys are the same.
    fn key_eq(&self, other: &Self) -> (r: bool)
        ensures
            r == (self.deep_view() == other.deep_view()),
    ;
}

impl AssocKey for String {
    fn key_eq(&self, other: &Self) -> (r: bool)
        ensures
            r == (self.deep_view() == other.deep_view()),
    {
        crate::text::str_eq(self.as_str(), other.as_str())
    }
}

impl AssocKey for usize {
    fn key_eq(&self, other: &Self) -> (r: bool)
        ensures
            r == (self.deep_view() == other.deep_view()),
    {
        *self == *other
    }
}

impl AssocKey for u32 {
    fn key_eq(&self, other: &Self) -> (r: bool)
        ensures
            r == (self.deep_view() == other.deep_view()),
    {
        *self == *other
    }
}

/// The map an entry sequence denotes: entries folded in, the later
/// binding of a key winning.
pub open spec fn entries_map<KV, VV>(s: Seq<(KV, VV)>) -> Map<KV, VV>
    decreases s.len(),
{
    if s.len() == 0 {
        Map::empty()
    } else {
        entries_map(s.drop_last()).insert(s.last().0, s.last().1)
    }
}

/// The first position holding key `k`.
pub open spec fn find_key<KV, VV>(s: Seq<(KV, VV)>, k: KV) -> Option<int>
    decreases s.len(),
{
    if s.len() == 0 {
        None
    } else if s[0].0 == k {
        Some(0)
    } else {
        match find_key(s.skip(1), k) {
            Some(i) => Some(i + 1),
            None => None,
        }
    }
}

/// A map from keys to values, held as entries in insertion order.
pub struct AssocMap<K, V> {
    pub entries: Vec<(K, V)>,
}

impl<K: AssocKey, V: DeepView> AssocMap<K, V> {
    /// The entries, in insertion order, over views.
    pub open spec fn spec_entries(&self) -> Seq<(<K as DeepView>::V, <V as DeepView>::V)> {
        self.entries.deep_view()
    }

    /// The map the entries denote.
    pub open spec fn as_map(&self) -> Map<<K as DeepView>::V, <V as DeepView>::V> {
        entries_map(self.spec_entries())
    }

    /// Each key occurs at most once.
    pub open spec fn wf(&self) -> bool {
        forall|i: int, j: int|
            0 <= i < j < self.spec_entries().len() ==> (#[trigger] self.spec_entries()[i]).0 != (
            #[trigger] self.spec_entries()[j]).0
    }

    /// An empty map.
    pub fn new() -> (r: Self)
        ensures
            r.wf(),
            r.as_map() == Map::<<K as DeepView>::V, <V as DeepView>::V>::empty(),
            r.spec_entries() == Seq::<(<K as DeepView>::V, <V as DeepView>::V)>::empty(),
    {
        let r = AssocMap { entries: Vec::new() };
        proof {
            assert(r.spec_entries() =~= Seq::<(<K as DeepView>::V, <V as DeepView>::V)>::empty());
        }
        r
    }

    /// The number of keys in the map.
    pub fn len(&self) -> (r: usize)
        ensures
            r == self.spec_entries().len(),
    {
        self.entries.len()
    }

    /// Looks the key up in the map.
    pub fn get(&self, k: &K) -> (r: Option<&V>)
        requires
            self.wf(),
        ensures
            match r {
                Some(v) => self.as_map().contains_key(k.deep_view()) && v.deep_view()
                    == self.as_map()[k.deep_view()],
                None => !self.as_map().contains_key(k.deep_view()),
            },
    {
        let n = self.entries.len();
        let mut i: usize = 0;
        while i < n
            invariant
                0 <= i <= n,
                n == self.spec_entries().len(),
                self.wf(),
                forall|j: int| 0 <= j < i ==> (#[trigger] self.spec_entries()[j]).0 != k.deep_view(),
            decreases n - i,
        {
            let e = &self.entries[i];
            if e.0.key_eq(k) {
                proof {
                    lemma_entries_map_at(self.spec_entries(), i as int);
                }
                return Some(&e.1);
            }
            i = i + 1;
        }
        proof {
            lemma_entries_map_absent(self.spec_entries(), k.deep_view());
        }
        None
    }

    /// Whether the key is in the map.
    pub fn contains_key(&self, k: &K) -> (r: bool)
        requires
            self.wf(),
        ensures
            r == self.as_map().contains_key(k.deep_view()),
    {
        match self.get(k) {
            Some(_) => true,
            None => false,
        }
    }

    /// Binds the key to the value, replacing any earlier binding in
    /// place.
    pub fn insert(&mut self, k: K, v: V)
        requires
            old(self).wf(),
        ensures
            final(self).wf(),
            final(self).as_map() == old(self).as_map().insert(k.deep_view(), v.deep_view()),
            final(self).spec_entries() == (match find_key(
                old(self).spec_entries(),
                k.deep_view(),
            ) {
                Some(i) => old(self).spec_entries().update(i, (k.deep_view(), v.deep_view())),
                None => old(self).spec_entries().push((k.deep_view(), v.deep_view())),
            }),
    {
        let ghost s0 = self.spec_entries();
        let n = self.entries.len();
        let mut found: Option<usize> = None;
        let mut i: usize = 0;
        while i < n
            invariant
                0 <= i <= n,
                n == self.spec_entries().len(),
                self.spec_entries() == s0,
                self.wf(),
                match found {
                    None => forall|j: int|
                        0 <= j < i ==> (#[trigger] self.spec_entries()[j]).0 != k.deep_view(),
                    Some(fi) => fi < n && s0[fi as int].0 == k.deep_view() && i == n && forall|
                        j: int,
                    | 0 <= j < fi ==> (#[trigger] self.spec_entries()[j]).0 != k.deep_view(),
                },
            decreases n - i,
        {
            let hit = self.entries[i].0.key_eq(&k);
            if hit {
                found = Some(i);
                i = n;
            } else {
                i = i + 1;
            }
        }
        match found {
            Some(fi) => {
                proof {
                    lemma_find_key_at(s0, k.deep_view(), fi as int);
                }
                self.entries.remove(fi);
                self.entries.insert(fi, (k, v));
                proof {
                    assert(self.spec_entries() =~= s0.update(
                        fi as int,
                        (k.deep_view(), v.deep_view()),
                    ));
                    lemma_entries_map_update(s0, fi as int, v.deep_view());
                    assert((s0[fi as int].0, v.deep_view()) == (k.deep_view(), v.deep_view()));
                    assert(self.as_map() == entries_map(s0).insert(k.deep_view(), v.deep_view()));
                    assert(self.spec_entries().len() == s0.len());
                    assert(forall|j: int|
                        0 <= j < s0.len() && j != fi ==> (#[trigger] self.spec_entries()[j])
                            == s0[j]);
                    assert(self.spec_entries()[fi as int].0 == s0[fi as int].0);
                    assert forall|a: int, b: int|
                        0 <= a < b < self.spec_entries().len() implies (
                    #[trigger] self.spec_entries()[a]).0 != (#[trigger] self.spec_entries()[b]).0 by {
                        assert(s0[a].0 != s0[b].0);
                    }
                }
            },
            None => {
                proof {
                    lemma_find_key_absent(s0, k.deep_view());
                }
                self.entries.push((k, v));
                proof {
                    assert(self.spec_entries() =~= s0.push((k.deep_view(), v.deep_view())));
                    assert(self.spec_entries().drop_last() =~= s0);
                }
            },
        }
    }
}

impl<K: AssocKey, V: DeepView> AssocMap<K, V> {
    /// Folds every entry of `other` into `self` in order, `other`'s
    /// binding winning on a shared key.
    pub fn extend(&mut self, other: AssocMap<K, V>)
        requires
            old(self).wf(),
        ensures
            final(self).wf(),
            final(self).as_map() == old(self).as_map().union_prefer_right(other.as_map()),
    {
        let ghost m0 = self.as_map();
        let ghost ov = other.spec_entries();
        let mut rest = other;
        let mut j: usize = 0;
        let n = rest.entries.len();
        proof {
            assert(ov.take(0) =~= Seq::<(<K as DeepView>::V, <V as DeepView>::V)>::empty());
            assert(m0.union_prefer_right(entries_map(ov.take(0))) =~= m0);
            assert(ov.skip(0) =~= ov);
        }
        while j < n
            invariant
                0 <= j <= n,
                n == ov.len(),
                rest.spec_entries() == ov.skip(j as int),
                self.wf(),
                self.as_map() == m0.union_prefer_right(entries_map(ov.take(j as int))),
            decreases n - j,
        {
            let ghost mcur = self.as_map();
            let ghost rest0 = rest.entries@;
            proof {
                assert(rest.entries@.len() == rest.spec_entries().len());
                assert(rest.spec_entries().len() == n - j);
            }
            let (k, v) = rest.entries.remove(0);
            proof {
                assert(rest.entries@ =~= rest0.skip(1));
                assert forall|l: int| 0 <= l < rest.spec_entries().len() implies
                    #[trigger] rest.spec_entries()[l] == ov[j + 1 + l] by {
                    assert(rest.entries@[l] == rest0[l + 1]);
                    assert(rest0[l + 1].deep_view() == ov.skip(j as int)[l + 1]);
                }
                assert(rest.spec_entries() =~= ov.skip(j + 1));
                assert((k, v) == rest0[0]);
                assert(rest0[0].deep_view() == ov.skip(j as int)[0]);
                assert((k.deep_view(), v.deep_view()) == ov[j as int]);
            }
            self.insert(k, v);
            proof {
                assert(ov.take(j + 1).drop_last() =~= ov.take(j as int));
                assert(ov.take(j + 1).last() == ov[j as int]);
                assert(entries_map(ov.take(j + 1)) == entries_map(ov.take(j as int)).insert(
                    ov[j as int].0,
                    ov[j as int].1,
                ));
                assert(mcur.insert(ov[j as int].0, ov[j as int].1) =~= m0.union_prefer_right(
                    entries_map(ov.take(j + 1)),
                ));
            }
            j = j + 1;
        }
        proof {
            assert(ov.take(n as int) =~= ov);
        }
    }
}

/// At the first occurrence of its key, an entry of a well-keyed sequence
/// is what the map yields.
proof fn lemma_entries_map_at<KV, VV>(s: Seq<(KV, VV)>, i: int)
    requires
        0 <= i < s.len(),
        forall|a: int, b: int| 0 <= a < b < s.len() ==> (#[trigger] s[a]).0 != (#[trigger] s[b]).0,
    ensures
        entries_map(s).contains_key(s[i].0),
        entries_map(s)[s[i].0] == s[i].1,
    decreases s.len(),
{
    if i == s.len() - 1 {
    } else {
        assert(forall|a: int, b: int|
            0 <= a < b < s.drop_last().len() ==> (#[trigger] s.drop_last()[a]).0 != (
            #[trigger] s.drop_last()[b]).0);
        lemma_entries_map_at(s.drop_last(), i);
        assert(s[i].0 != s.last().0);
    }
}

/// A key no entry holds is not in the map.
proof fn lemma_entries_map_absent<KV, VV>(s: Seq<(KV, VV)>, k: KV)
    requires
        forall|j: int| 0 <= j < s.len() ==> (#[trigger] s[j]).0 != k,
    ensures
        !entries_map(s).contains_key(k),
    decreases s.len(),
{
    if s.len() > 0 {
        assert(forall|j: int| 0 <= j < s.drop_last().len() ==> (#[trigger] s.drop_last()[j]).0 != k);
        lemma_entries_map_absent(s.drop_last(), k);
        assert(s.last().0 != k);
    }
}

/// `find_key` finds the first occurrence.
proof fn lemma_find_key_at<KV, VV>(s: Seq<(KV, VV)>, k: KV, i: int)
    requires
        0 <= i < s.len(),
        s[i].0 == k,
        forall|j: int| 0 <= j < i ==> (#[trigger] s[j]).0 != k,
    ensures
        find_key(s, k) == Some(i),
    decreases s.len(),
{
    if s[0].0 == k {
        assert(i == 0);
    } else {
        assert(s.skip(1)[i - 1] == s[i]);
        assert(forall|j: int| 0 <= j < i - 1 ==> (#[trigger] s.skip(1)[j]).0 != k);
        lemma_find_key_at(s.skip(1), k, i - 1);
    }
}

/// `find_key` misses exactly the absent keys.
proof fn lemma_find_key_absent<KV, VV>(s: Seq<(KV, VV)>, k: KV)
    requires
        forall|j: int| 0 <= j < s.len() ==> (#[trigger] s[j]).0 != k,
    ensures
        find_key(s, k) is None,
    decreases s.len(),
{
    if s.len() > 0 {
        assert(forall|j: int| 0 <= j < s.skip(1).len() ==> (#[trigger] s.skip(1)[j]).0 != k);
        lemma_find_key_absent(s.skip(1), k);
    }
}

/// Updating the value at a key's position updates the map at that key.
proof fn lemma_entries_map_update<KV, VV>(s: Seq<(KV, VV)>, i: int, v: VV)
    requires
        0 <= i < s.len(),
        forall|a: int, b: int| 0 <= a < b < s.len() ==> (#[trigger] s[a]).0 != (#[trigger] s[b]).0,
    ensures
        entries_map(s.update(i, (s[i].0, v))) == entries_map(s).insert(s[i].0, v),
    decreases s.len(),
{
    let t = s.update(i, (s[i].0, v));
    if i == s.len() - 1 {
        assert(t.drop_last() =~= s.drop_last());
        assert(t.last() == (s[i].0, v));
    } else {
        assert(t.drop_last() =~= s.drop_last().update(i, (s[i].0, v)));
        assert(forall|a: int, b: int|
            0 <= a < b < s.drop_last().len() ==> (#[trigger] s.drop_last()[a]).0 != (
            #[trigger] s.drop_last()[b]).0);
        assert(s.drop_last()[i] == s[i]);
        lemma_entries_map_update(s.drop_last(), i, v);
        assert(t.last() == s.last());
        assert(entries_map(t) == entries_map(s.drop_last()).insert(s[i].0, v).insert(
            s.last().0,
            s.last().1,
        ));
        assert(s[i].0 != s.last().0);
        assert(entries_map(s.drop_last()).insert(s[i].0, v).insert(s.last().0, s.last().1)
            =~= entries_map(s.drop_last()).insert(s.last().0, s.last().1).insert(s[i].0, v));
    }
}

} // verus!
