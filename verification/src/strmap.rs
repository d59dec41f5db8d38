//! A small map keyed by strings, kept as a vector of distinct keys in
//! insertion order. Its view is a `Map` from the keys' character sequences.

use vstd::prelude::*;

verus! {

/// Insertion-ordered association list with distinct string keys.
pub struct StrMap<V> {
    pub entries: Vec<(String, V)>,
}

impl<V> StrMap<V> {
    /// No key occurs twice.
    pub open spec fn wf(&self) -> bool {
        forall|i: int, j: int|
            0 <= i < self.entries@.len() && 0 <= j < self.entries@.len() && i != j
                ==> #[trigger] self.entries@[i].0@ != #[trigger] self.entries@[j].0@
    }

    /// Whether `k` is one of the keys.
    pub open spec fn has(&self, k: Seq<char>) -> bool {
        exists|i: int| 0 <= i < self.entries@.len() && #[trigger] self.entries@[i].0@ == k
    }

    /// The key sequence, in insertion order.
    pub open spec fn key_seq(&self) -> Seq<Seq<char>> {
        self.entries@.map_values(|e: (String, V)| e.0@)
    }

    /// The map this list stands for.
    pub open spec fn view(&self) -> Map<Seq<char>, V> {
        Map::new(
            |k: Seq<char>| self.has(k),
            |k: Seq<char>| self.entries@[choose|i: int| 0 <= i < self.entries@.len() && #[trigger] self.entries@[i].0@ == k].1,
        )
    }

    pub proof fn lemma_view_at(&self, i: int)
        requires
            self.wf(),
            0 <= i < self.entries@.len(),
        ensures
            self.view().contains_key(self.entries@[i].0@),
            self.view()[self.entries@[i].0@] == self.entries@[i].1,
    {
        let k = self.entries@[i].0@;
        assert(self.has(k));
        let j = choose|j: int| 0 <= j < self.entries@.len() && #[trigger] self.entries@[j].0@ == k;
        assert(j == i);
    }

    /// An empty map.
    pub fn new() -> (m: Self)
        ensures
            m.wf(),
            m.view() == Map::<Seq<char>, V>::empty(),
            m.entries@.len() == 0,
    {
        let m = StrMap { entries: Vec::new() };
        assert(m.view() =~= Map::<Seq<char>, V>::empty());
        m
    }

    /// Number of keys.
    pub fn len(&self) -> (n: usize)
        requires self.wf(),
        ensures n == self.entries@.len(), n == self.view().dom().len(),
    {
        proof { self.lemma_dom_len(); }
        self.entries.len()
    }

    pub proof fn lemma_dom_len(&self)
        requires self.wf(),
        ensures
            self.view().dom().finite(),
            self.view().dom().len() == self.entries@.len(),
    {
        let ks = self.key_seq();
        assert(ks.no_duplicates()) by {
            assert forall|i: int, j: int| 0 <= i < ks.len() && 0 <= j < ks.len() && i != j
                implies ks[i] != ks[j] by {
                assert(ks[i] == self.entries@[i].0@);
                assert(ks[j] == self.entries@[j].0@);
            }
        }
        assert(self.view().dom() =~= ks.to_set()) by {
            assert forall|k: Seq<char>| self.view().dom().contains(k) implies ks.to_set().contains(k) by {
                let i = choose|i: int| 0 <= i < self.entries@.len() && #[trigger] self.entries@[i].0@ == k;
                assert(ks[i] == k);
            }
            assert forall|k: Seq<char>| ks.to_set().contains(k) implies self.view().dom().contains(k) by {
                let i = choose|i: int| 0 <= i < ks.len() && ks[i] == k;
                assert(self.entries@[i].0@ == k);
            }
        }
        ks.unique_seq_to_set();
    }

    /// Position of `k`, if present.
    pub fn find(&self, k: &str) -> (r: Option<usize>)
        requires self.wf(),
        ensures
            match r {
                Some(i) => i < self.entries@.len() && self.entries@[i as int].0@ == k@,
                None => !self.has(k@),
            },
            r is Some <==> self.view().contains_key(k@),
    {
        let mut i: usize = 0;
        while i < self.entries.len()
            invariant
                i <= self.entries@.len(),
                forall|j: int| 0 <= j < i ==> self.entries@[j].0@ != k@,
            decreases self.entries@.len() - i,
        {
            if str_eq(self.entries[i].0.as_str(), k) {
                return Some(i);
            }
            i += 1;
        }
        None
    }

    /// Whether `k` is present.
    pub fn contains_key(&self, k: &str) -> (b: bool)
        requires self.wf(),
        ensures b == self.view().contains_key(k@),
    {
        self.find(k).is_some()
    }

    /// The value stored under `k`.
    pub fn get(&self, k: &str) -> (r: Option<&V>)
        requires self.wf(),
        ensures
            match r {
                Some(v) => self.view().contains_key(k@) && *v == self.view()[k@],
                None => !self.view().contains_key(k@),
            },
    {
        match self.find(k) {
            Some(i) => {
                proof { self.lemma_view_at(i as int); }
                Some(&self.entries[i].1)
            },
            None => None,
        }
    }

    /// Store `v` under `k`, replacing any previous value.
    pub fn insert(&mut self, k: String, v: V)
        requires old(self).wf(),
        ensures
            final(self).wf(),
            final(self).view() == old(self).view().insert(k@, v),
            old(self).has(k@) ==> final(self).key_seq() == old(self).key_seq(),
            !old(self).has(k@) ==> final(self).key_seq() == old(self).key_seq().push(k@),
    {
        let ghost kk = k@;
        let ghost vv = v;
        let ghost pre = *old(self);
        match self.find(k.as_str()) {
            Some(i) => {
                self.entries.set(i, (k, v));
                proof {
                    assert(self.wf()) by {
                        assert forall|a: int, b: int|
                            0 <= a < self.entries@.len() && 0 <= b < self.entries@.len() && a != b
                            implies #[trigger] self.entries@[a].0@ != #[trigger] self.entries@[b].0@ by {
                            assert(pre.entries@[a].0@ != pre.entries@[b].0@);
                        }
                    }
                    assert forall|q: Seq<char>| self.has(q) <==> pre.has(q) by {
                        if self.has(q) {
                            let a = choose|a: int| 0 <= a < self.entries@.len() && #[trigger] self.entries@[a].0@ == q;
                            assert(pre.entries@[a].0@ == q);
                        }
                        if pre.has(q) {
                            let a = choose|a: int| 0 <= a < pre.entries@.len() && #[trigger] pre.entries@[a].0@ == q;
                            assert(self.entries@[a].0@ == q);
                        }
                    }
                    assert forall|q: Seq<char>| #[trigger] self.view().contains_key(q)
                        implies self.view()[q] == pre.view().insert(kk, vv)[q] by {
                        let a = choose|a: int| 0 <= a < self.entries@.len() && #[trigger] self.entries@[a].0@ == q;
                        self.lemma_view_at(a);
                        if a != i {
                            pre.lemma_view_at(a);
                        }
                    }
                    assert(self.view() =~= pre.view().insert(kk, vv));
                    assert(self.key_seq() =~= pre.key_seq());
                }
            },
            None => {
                self.entries.push((k, v));
                proof {
                    let n = pre.entries@.len() as int;
                    assert(self.wf()) by {
                        assert forall|a: int, b: int|
                            0 <= a < self.entries@.len() && 0 <= b < self.entries@.len() && a != b
                            implies #[trigger] self.entries@[a].0@ != #[trigger] self.entries@[b].0@ by {
                            if a < n && b < n {
                                assert(pre.entries@[a].0@ != pre.entries@[b].0@);
                            } else if a < n {
                                assert(pre.entries@[a].0@ != kk);
                            } else {
                                assert(pre.entries@[b].0@ != kk);
                            }
                        }
                    }
                    assert forall|q: Seq<char>| self.has(q) <==> (pre.has(q) || q == kk) by {
                        if self.has(q) {
                            let a = choose|a: int| 0 <= a < self.entries@.len() && #[trigger] self.entries@[a].0@ == q;
                            if a < n {
                                assert(pre.entries@[a].0@ == q);
                            }
                        }
                        if pre.has(q) {
                            let a = choose|a: int| 0 <= a < pre.entries@.len() && #[trigger] pre.entries@[a].0@ == q;
                            assert(self.entries@[a].0@ == q);
                        }
                        if q == kk {
                            assert(self.entries@[n].0@ == q);
                        }
                    }
                    assert forall|q: Seq<char>| #[trigger] self.view().contains_key(q)
                        implies self.view()[q] == pre.view().insert(kk, vv)[q] by {
                        let a = choose|a: int| 0 <= a < self.entries@.len() && #[trigger] self.entries@[a].0@ == q;
                        self.lemma_view_at(a);
                        if a < n {
                            pre.lemma_view_at(a);
                        }
                    }
                    assert(self.view() =~= pre.view().insert(kk, vv));
                    assert(self.key_seq() =~= pre.key_seq().push(kk));
                }
            },
        }
    }

    /// Remove `k`, returning its value if it was present. The order of the
    /// remaining keys is kept.
    pub fn remove(&mut self, k: &str) -> (r: Option<V>)
        requires old(self).wf(),
        ensures
            final(self).wf(),
            final(self).view() == old(self).view().remove(k@),
            match r {
                Some(v) => old(self).view().contains_key(k@) && v == old(self).view()[k@],
                None => !old(self).view().contains_key(k@),
            },
    {
        let ghost kk = k@;
        let ghost pre = *old(self);
        match self.find(k) {
            Some(i) => {
                proof { pre.lemma_view_at(i as int); }
                let e = self.entries.remove(i);
                proof {
                    let n = pre.entries@.len() as int;
                    assert forall|a: int| 0 <= a < self.entries@.len() implies
                        #[trigger] self.entries@[a] == pre.entries@[if a < i { a } else { a + 1 }] by {}
                    assert(self.wf()) by {
                        assert forall|a: int, b: int|
                            0 <= a < self.entries@.len() && 0 <= b < self.entries@.len() && a != b
                            implies #[trigger] self.entries@[a].0@ != #[trigger] self.entries@[b].0@ by {
                            let a2 = if a < i { a } else { a + 1 };
                            let b2 = if b < i { b } else { b + 1 };
                            assert(self.entries@[a] == pre.entries@[a2]);
                            assert(self.entries@[b] == pre.entries@[b2]);
                            assert(pre.entries@[a2].0@ != pre.entries@[b2].0@);
                        }
                    }
                    assert forall|q: Seq<char>| self.has(q) <==> (pre.has(q) && q != kk) by {
                        if self.has(q) {
                            let a = choose|a: int| 0 <= a < self.entries@.len() && #[trigger] self.entries@[a].0@ == q;
                            let a2 = if a < i { a } else { a + 1 };
                            assert(self.entries@[a] == pre.entries@[a2]);
                            assert(pre.entries@[a2].0@ == q);
                            assert(a2 != i);
                        }
                        if pre.has(q) && q != kk {
                            let a = choose|a: int| 0 <= a < pre.entries@.len() && #[trigger] pre.entries@[a].0@ == q;
                            assert(a != i);
                            let a1 = if a < i { a } else { a - 1 };
                            assert(self.entries@[a1] == pre.entries@[a]);
                            assert(self.entries@[a1].0@ == q);
                        }
                    }
                    assert forall|q: Seq<char>| #[trigger] self.view().contains_key(q)
                        implies self.view()[q] == pre.view().remove(kk)[q] by {
                        let a = choose|a: int| 0 <= a < self.entries@.len() && #[trigger] self.entries@[a].0@ == q;
                        self.lemma_view_at(a);
                        let a2 = if a < i { a } else { a + 1 };
                        assert(self.entries@[a] == pre.entries@[a2]);
                        pre.lemma_view_at(a2);
                    }
                    assert(self.view() =~= pre.view().remove(kk));
                }
                Some(e.1)
            },
            None => {
                proof { assert(pre.view().remove(kk) =~= pre.view()); }
                None
            },
        }
    }

    /// The keys, in insertion order.
    pub fn keys(&self) -> (ks: Vec<String>)
        requires self.wf(),
        ensures
            ks@.len() == self.entries@.len(),
            forall|i: int| 0 <= i < ks@.len() ==> #[trigger] ks@[i]@ == self.entries@[i].0@,
    {
        let mut ks: Vec<String> = Vec::new();
        let mut i: usize = 0;
        while i < self.entries.len()
            invariant
                i <= self.entries@.len(),
                ks@.len() == i,
                forall|j: int| 0 <= j < i ==> #[trigger] ks@[j]@ == self.entries@[j].0@,
            decreases self.entries@.len() - i,
        {
            ks.push(self.entries[i].0.clone());
            i += 1;
        }
        ks
    }
}

/// Character-wise equality of two string slices.
pub fn str_eq(a: &str, b: &str) -> (r: bool)
    ensures r == (a@ == b@),
{
    let va = crate::text::chars_of(a);
    let vb = crate::text::chars_of(b);
    if va.len() != vb.len() {
        return false;
    }
    let mut i: usize = 0;
    while i < va.len()
        invariant
            va@ == a@, vb@ == b@, va@.len() == vb@.len(),
            i <= va@.len(),
            forall|j: int| 0 <= j < i ==> va@[j] == vb@[j],
        decreases va@.len() - i,
    {
        if va[i] != vb[i] {
            return false;
        }
        i += 1;
    }
    assert(va@ =~= vb@);
    true
}

} // verus!
