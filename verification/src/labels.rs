//! Label and annotation maps.
//!
//! Kubernetes labels and annotations are string-to-string maps. The
//! controller reads them for selector matching and rewrites them when it
//! builds a Job, so they are kept here as a verified association list with
//! unique keys.

use vstd::prelude::*;

verus! {

/// The pairs of a map, each key and value as a sequence of characters.
pub type Pairs = Seq<(Seq<char>, Seq<char>)>;

/// No two entries share a key.
pub open spec fn unique_keys(s: Pairs) -> bool {
    forall|i: int, j: int| 0 <= i < j < s.len() ==> (#[trigger] s[i]).0 != (#[trigger] s[j]).0
}

/// Some entry has key `k`.
pub open spec fn has_key(s: Pairs, k: Seq<char>) -> bool {
    exists|i: int| 0 <= i < s.len() && (#[trigger] s[i]).0 == k
}

/// Some entry is exactly the pair `(k, v)`.
pub open spec fn has_pair(s: Pairs, k: Seq<char>, v: Seq<char>) -> bool {
    exists|i: int| 0 <= i < s.len() && #[trigger] s[i] == (k, v)
}

/// The value at key `k`, if any entry has that key.
pub open spec fn value_of(s: Pairs, k: Seq<char>) -> Option<Seq<char>> {
    if has_key(s, k) {
        let i = choose|i: int| 0 <= i < s.len() && (#[trigger] s[i]).0 == k;
        Some(s[i].1)
    } else {
        None
    }
}

/// Every pair of `a` is a pair of `b`.
pub open spec fn submap_of(a: Pairs, b: Pairs) -> bool {
    forall|i: int| 0 <= i < a.len() ==> has_pair(b, (#[trigger] a[i]).0, a[i].1)
}

/// The value that the last pair with key `k` carries, if any. This is what
/// repeated insertion into a map leaves at `k`.
pub open spec fn last_value_of(s: Pairs, k: Seq<char>) -> Option<Seq<char>>
    decreases s.len(),
{
    if s.len() == 0 {
        None
    } else if s.last().0 == k {
        Some(s.last().1)
    } else {
        last_value_of(s.drop_last(), k)
    }
}

/// The pairs with the entry at key `k` taken out, when one is there.
pub open spec fn remove_key_seq(s: Pairs, k: Seq<char>) -> Pairs {
    if has_key(s, k) {
        s.remove(choose|i: int| 0 <= i < s.len() && (#[trigger] s[i]).0 == k)
    } else {
        s
    }
}

/// A string-to-string map with unique keys, stored as an association list.
#[derive(Debug, PartialEq, Eq)]
pub struct LabelMap {
    entries: Vec<(String, String)>,
}

impl View for LabelMap {
    type V = Pairs;

    closed spec fn view(&self) -> Pairs {
        self.entries@.map_values(|p: (String, String)| (p.0@, p.1@))
    }
}

impl Clone for LabelMap {
    fn clone(&self) -> (res: Self)
        ensures
            res@ == self@,
    {
        let mut entries: Vec<(String, String)> = Vec::new();
        let n = self.entries.len();
        let mut i: usize = 0;
        while i < n
            invariant
                n == self.entries@.len(),
                0 <= i <= n,
                entries@.len() == i,
                forall|j: int|
                    0 <= j < i ==> #[trigger] entries@[j].0@ == self.entries@[j].0@
                        && entries@[j].1@ == self.entries@[j].1@,
            decreases n - i,
        {
            entries.push((self.entries[i].0.clone(), self.entries[i].1.clone()));
            i = i + 1;
        }
        let res = LabelMap { entries };
        proof {
            assert forall|j: int| 0 <= j < n implies #[trigger] res@[j] == self@[j] by {
                assert(res@[j] == (res.entries@[j].0@, res.entries@[j].1@));
                assert(self@[j] == (self.entries@[j].0@, self.entries@[j].1@));
            }
            assert(res@ =~= self@);
        }
        res
    }
}

/// With unique keys, an entry at index `i` fixes the value at its key.
pub proof fn lemma_value_at(s: Pairs, i: int)
    requires
        unique_keys(s),
        0 <= i < s.len(),
    ensures
        value_of(s, s[i].0) == Some(s[i].1),
{
    assert(has_key(s, s[i].0));
    let j = choose|j: int| 0 <= j < s.len() && (#[trigger] s[j]).0 == s[i].0;
    assert(j == i);
}

/// With unique keys, holding a pair and mapping the key to its value are the
/// same statement.
pub proof fn lemma_has_pair_iff_value(s: Pairs, k: Seq<char>, v: Seq<char>)
    requires
        unique_keys(s),
    ensures
        has_pair(s, k, v) <==> value_of(s, k) == Some(v),
{
    if has_pair(s, k, v) {
        let i = choose|i: int| 0 <= i < s.len() && #[trigger] s[i] == (k, v);
        lemma_value_at(s, i);
    }
    if value_of(s, k) == Some(v) {
        let i = choose|i: int| 0 <= i < s.len() && (#[trigger] s[i]).0 == k;
        assert(s[i] == (k, v));
    }
}

impl LabelMap {
    /// The unique-keys invariant.
    pub open spec fn wf(&self) -> bool {
        unique_keys(self@)
    }

    /// A map with no entries.
    pub fn empty() -> (r: LabelMap)
        ensures
            r@ == Seq::<(Seq<char>, Seq<char>)>::empty(),
            r.wf(),
    {
        let r = LabelMap { entries: Vec::new() };
        proof {
            assert(r@ =~= Seq::<(Seq<char>, Seq<char>)>::empty());
        }
        r
    }

    /// How many entries the map holds.
    pub fn len(&self) -> (n: usize)
        ensures
            n == self@.len(),
    {
        self.entries.len()
    }

    /// The value stored at `key`, if any.
    pub fn get(&self, key: &String) -> (r: Option<&String>)
        requires
            self.wf(),
        ensures
            match r {
                Some(v) => value_of(self@, key@) == Some(v@),
                None => value_of(self@, key@) is None,
            },
    {
        let n = self.entries.len();
        let mut i: usize = 0;
        while i < n
            invariant
                n == self@.len(),
                0 <= i <= n,
                self.wf(),
                forall|j: int| 0 <= j < i ==> (#[trigger] self@[j]).0 != key@,
            decreases n - i,
        {
            if self.entries[i].0 == *key {
                proof {
                    lemma_value_at(self@, i as int);
                }
                return Some(&self.entries[i].1);
            }
            i = i + 1;
        }
        proof {
            assert(!has_key(self@, key@));
        }
        None
    }

    /// Put `value` at `key`, replacing any entry with that key.
    pub fn set_pair(&mut self, key: String, value: String)
        requires
            old(self).wf(),
        ensures
            final(self).wf(),
            value_of(final(self)@, key@) == Some(value@),
            forall|k: Seq<char>|
                k != key@ ==> value_of(final(self)@, k) == value_of(old(self)@, k),
    {
        let n = self.entries.len();
        let mut i: usize = 0;
        while i < n
            invariant
                n == self@.len(),
                0 <= i <= n,
                self.wf(),
                self@ == old(self)@,
                forall|j: int| 0 <= j < i ==> (#[trigger] self@[j]).0 != key@,
            decreases n - i,
        {
            if self.entries[i].0 == *(&key) {
                self.entries.set(i, (key, value));
                proof {
                    assert(self@ =~= old(self)@.update(i as int, (key@, value@)));
                    assert forall|a: int, b: int| 0 <= a < b < self@.len() implies (
                    #[trigger] self@[a]).0 != (#[trigger] self@[b]).0 by {
                        assert(old(self)@[a].0 != old(self)@[b].0);
                        if a == i {
                            assert(self@[a].0 == old(self)@[a].0);
                        }
                        if b == i {
                            assert(self@[b].0 == old(self)@[b].0);
                        }
                    }
                    lemma_value_at(self@, i as int);
                    assert forall|k: Seq<char>| k != key@ implies value_of(self@, k) == value_of(
                        old(self)@,
                        k,
                    ) by {
                        Self::lemma_value_same_keys(old(self)@, self@, k);
                    }
                }
                return ;
            }
            i = i + 1;
        }
        proof {
            assert(!has_key(self@, key@));
        }
        self.entries.push((key, value));
        proof {
            let ghost s0 = old(self)@;
            assert(self@ =~= s0.push((key@, value@)));
            assert forall|a: int, b: int| 0 <= a < b < self@.len() implies (
            #[trigger] self@[a]).0 != (#[trigger] self@[b]).0 by {
                if b < s0.len() {
                    assert(s0[a].0 != s0[b].0);
                } else {
                    assert(self@[b].0 == key@);
                    assert(self@[a].0 == s0[a].0);
                }
            }
            lemma_value_at(self@, s0.len() as int);
            assert forall|k: Seq<char>| k != key@ implies value_of(self@, k) == value_of(
                old(self)@,
                k,
            ) by {
                if has_key(old(self)@, k) {
                    let j = choose|j: int|
                        0 <= j < old(self)@.len() && (#[trigger] old(self)@[j]).0 == k;
                    lemma_value_at(old(self)@, j);
                    assert(self@[j] == old(self)@[j]);
                    lemma_value_at(self@, j);
                } else {
                    assert(!has_key(self@, k)) by {
                        if has_key(self@, k) {
                            let j = choose|j: int|
                                0 <= j < self@.len() && (#[trigger] self@[j]).0 == k;
                            assert(j < old(self)@.len());
                            assert(old(self)@[j].0 == k);
                        }
                    }
                }
            }
        }
    }

    /// Two sequences with the same keys position by position, whose entries
    /// differ at most where the key is `k`, map every other key alike.
    proof fn lemma_value_same_keys(s0: Pairs, s1: Pairs, k: Seq<char>)
        requires
            unique_keys(s0),
            unique_keys(s1),
            s0.len() == s1.len(),
            forall|j: int|
                0 <= j < s0.len() ==> (#[trigger] s0[j]).0 == (#[trigger] s1[j]).0,
            forall|j: int|
                0 <= j < s0.len() && (#[trigger] s0[j]).0 == k ==> s0[j] == s1[j],
        ensures
            value_of(s0, k) == value_of(s1, k),
    {
        if has_key(s0, k) {
            let j0 = choose|j: int| 0 <= j < s0.len() && (#[trigger] s0[j]).0 == k;
            assert(s1[j0].0 == k);
            assert(has_key(s1, k));
            let j1 = choose|j: int| 0 <= j < s1.len() && (#[trigger] s1[j]).0 == k;
            assert(s0[j1].0 == k);
            assert(j0 == j1);
            assert(s0[j0] == s1[j0]);
        } else {
            assert(!has_key(s1, k)) by {
                if has_key(s1, k) {
                    let j = choose|j: int| 0 <= j < s1.len() && (#[trigger] s1[j]).0 == k;
                    assert(s0[j].0 == k);
                }
            }
        }
    }

    /// Remove the entry at `key`, if any.
    pub fn remove_key(&mut self, key: &String)
        requires
            old(self).wf(),
        ensures
            final(self).wf(),
            final(self)@ == remove_key_seq(old(self)@, key@),
            value_of(final(self)@, key@) is None,
            !has_key(final(self)@, key@),
            forall|k: Seq<char>|
                k != key@ ==> value_of(final(self)@, k) == value_of(old(self)@, k),
    {
        let n = self.entries.len();
        let mut i: usize = 0;
        while i < n
            invariant
                n == self@.len(),
                0 <= i <= n,
                self.wf(),
                self@ == old(self)@,
                forall|j: int| 0 <= j < i ==> (#[trigger] self@[j]).0 != key@,
            decreases n - i,
        {
            if self.entries[i].0 == *key {
                self.entries.remove(i);
                proof {
                    let ghost s0 = old(self)@;
                    assert(self@ =~= s0.remove(i as int));
                    assert(s0[i as int].0 == key@);
                    assert(has_key(s0, key@));
                    let c = choose|j: int| 0 <= j < s0.len() && (#[trigger] s0[j]).0 == key@;
                    assert(c == i);
                    assert(remove_key_seq(s0, key@) == s0.remove(i as int));
                    assert forall|a: int, b: int| 0 <= a < b < self@.len() implies (
                    #[trigger] self@[a]).0 != (#[trigger] self@[b]).0 by {
                        let a0: int = if a < i { a } else { a + 1 };
                        let b0: int = if b < i { b } else { b + 1 };
                        assert(self@[a] == s0[a0]);
                        assert(self@[b] == s0[b0]);
                    }
                    assert(!has_key(self@, key@)) by {
                        if has_key(self@, key@) {
                            let j = choose|j: int|
                                0 <= j < self@.len() && (#[trigger] self@[j]).0 == key@;
                            let j0: int = if j < i { j } else { j + 1 };
                            assert(self@[j] == s0[j0]);
                            assert(s0[j0].0 == key@);
                            assert(j0 != i ==> s0[j0].0 != s0[i as int].0);
                        }
                    }
                    assert forall|k: Seq<char>| k != key@ implies value_of(self@, k) == value_of(
                        old(self)@,
                        k,
                    ) by {
                        if has_key(s0, k) {
                            let j = choose|j: int|
                                0 <= j < s0.len() && (#[trigger] s0[j]).0 == k;
                            let j1: int = if j < i { j } else { j - 1 };
                            assert(j != i);
                            assert(self@[j1] == s0[j]);
                            lemma_value_at(s0, j);
                            lemma_value_at(self@, j1);
                        } else {
                            assert(!has_key(self@, k)) by {
                                if has_key(self@, k) {
                                    let j = choose|j: int|
                                        0 <= j < self@.len() && (#[trigger] self@[j]).0 == k;
                                    let j0: int = if j < i { j } else { j + 1 };
                                    assert(self@[j] == s0[j0]);
                                    assert(s0[j0].0 == k);
                                }
                            }
                        }
                    }
                }
                return ;
            }
            i = i + 1;
        }
        proof {
            assert(!has_key(self@, key@));
            assert(remove_key_seq(self@, key@) == self@);
        }
    }

    /// Build a map from a list of pairs; a later pair with the same key wins,
    /// as repeated insertion into a map would have it.
    pub fn from_pairs(pairs: Vec<(String, String)>) -> (r: LabelMap)
        ensures
            r.wf(),
            forall|k: Seq<char>|
                #[trigger] value_of(r@, k) == last_value_of(
                    pairs@.map_values(|p: (String, String)| (p.0@, p.1@)),
                    k,
                ),
    {
        let ghost pv = pairs@.map_values(|p: (String, String)| (p.0@, p.1@));
        let mut r = LabelMap::empty();
        proof {
            assert forall|k: Seq<char>| #[trigger]
                value_of(r@, k) == last_value_of(pv.take(0), k) by {
                assert(pv.take(0) =~= Seq::<(Seq<char>, Seq<char>)>::empty());
            }
        }
        let n = pairs.len();
        let mut i: usize = 0;
        while i < n
            invariant
                n == pairs@.len(),
                0 <= i <= n,
                pv == pairs@.map_values(|p: (String, String)| (p.0@, p.1@)),
                r.wf(),
                forall|k: Seq<char>| #[trigger]
                    value_of(r@, k) == last_value_of(pv.take(i as int), k),
            decreases n - i,
        {
            let pk = pairs[i].0.clone();
            let pv_i = pairs[i].1.clone();
            r.set_pair(pk, pv_i);
            proof {
                let t = pv.take(i + 1 as int);
                assert(t.drop_last() =~= pv.take(i as int));
                assert(t.last() == pv[i as int]);
                assert(pv[i as int] == (pairs@[i as int].0@, pairs@[i as int].1@));
            }
            i = i + 1;
        }
        proof {
            assert(pv.take(n as int) =~= pv);
        }
        r
    }

    /// The entries of the map, in storage order.
    pub fn to_pairs(&self) -> (r: Vec<(String, String)>)
        ensures
            r@.map_values(|p: (String, String)| (p.0@, p.1@)) == self@,
    {
        let mut out: Vec<(String, String)> = Vec::new();
        let n = self.entries.len();
        let mut i: usize = 0;
        while i < n
            invariant
                n == self.entries@.len(),
                0 <= i <= n,
                out@.len() == i,
                forall|j: int|
                    0 <= j < i ==> #[trigger] out@[j].0@ == self.entries@[j].0@
                        && out@[j].1@ == self.entries@[j].1@,
            decreases n - i,
        {
            let k = self.entries[i].0.clone();
            let v = self.entries[i].1.clone();
            out.push((k, v));
            i = i + 1;
        }
        proof {
            assert forall|j: int| 0 <= j < n implies out@.map_values(
                |p: (String, String)| (p.0@, p.1@),
            )[j] == #[trigger] self@[j] by {
                assert(out@.map_values(|p: (String, String)| (p.0@, p.1@))[j] == (
                    out@[j].0@,
                    out@[j].1@,
                ));
                assert(self@[j] == (self.entries@[j].0@, self.entries@[j].1@));
            }
            assert(out@.map_values(|p: (String, String)| (p.0@, p.1@)) =~= self@);
        }
        out
    }

    /// Every pair of this map is a pair of `other`.
    pub fn is_contained_in(&self, other: &LabelMap) -> (r: bool)
        requires
            self.wf(),
            other.wf(),
        ensures
            r == submap_of(self@, other@),
    {
        let n = self.entries.len();
        let mut i: usize = 0;
        while i < n
            invariant
                n == self@.len(),
                0 <= i <= n,
                self.wf(),
                other.wf(),
                forall|j: int|
                    0 <= j < i ==> has_pair(other@, (#[trigger] self@[j]).0, self@[j].1),
            decreases n - i,
        {
            let found = match other.get(&self.entries[i].0) {
                Some(v) => *v == self.entries[i].1,
                None => false,
            };
            proof {
                lemma_has_pair_iff_value(other@, self@[i as int].0, self@[i as int].1);
            }
            if !found {
                return false;
            }
            i = i + 1;
        }
        true
    }
}

} // verus!
