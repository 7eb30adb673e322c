//! Small maps keyed by strings, kept as association lists with distinct keys.
use vstd::prelude::*;
use crate::text::str_eq;

verus! {

/// A map from strings to values; each key occurs once.
#[derive(Debug)]
pub struct StrMap<V> {
    entries: Vec<(String, V)>,
}

impl<V> StrMap<V> {
    /// The map: each key's characters to its value.
    pub closed spec fn view(&self) -> Map<Seq<char>, V> {
        Map::new(
            |k: Seq<char>| exists|i: int| 0 <= i < self.entries@.len() && self.entries@[i].0@ == k,
            |k: Seq<char>| self.entries@[choose|i: int| 0 <= i < self.entries@.len() && self.entries@[i].0@ == k].1,
        )
    }

    /// Keys are distinct.
    pub closed spec fn wf(&self) -> bool {
        forall|i: int, j: int| 0 <= i < j < self.entries@.len() ==> self.entries@[i].0@ != self.entries@[j].0@
    }

    proof fn lemma_at(&self, i: int)
        requires
            self.wf(),
            0 <= i < self.entries@.len(),
        ensures
            self.view().dom().contains(self.entries@[i].0@),
            self.view()[self.entries@[i].0@] == self.entries@[i].1,
    {
        let k = self.entries@[i].0@;
        let c = choose|c: int| 0 <= c < self.entries@.len() && self.entries@[c].0@ == k;
        assert(0 <= c < self.entries@.len() && self.entries@[c].0@ == k);
        if c != i {
            if c < i { assert(self.entries@[c].0@ != self.entries@[i].0@); }
            else { assert(self.entries@[i].0@ != self.entries@[c].0@); }
        }
    }

    /// An empty map.
    pub fn new() -> (r: Self)
        ensures
            r.wf(),
            r.view() == Map::<Seq<char>, V>::empty(),
    {
        let r = StrMap { entries: Vec::new() };
        assert(r.view() =~= Map::<Seq<char>, V>::empty());
        r
    }

    fn find(&self, k: &str) -> (r: Option<usize>)
        requires
            self.wf(),
        ensures
            match r {
                Some(i) => i < self.entries@.len() && self.entries@[i as int].0@ == k@,
                None => !self.view().dom().contains(k@),
            },
    {
        let mut i: usize = 0;
        while i < self.entries.len()
            invariant
                i <= self.entries@.len(),
                forall|j: int| 0 <= j < i ==> self.entries@[j].0@ != k@,
            decreases self.entries@.len() - i,
        {
            if str_eq(self.entries[i].0.as_str(), k) {
                return Some(i);
            }
            i += 1;
        }
        None
    }

    /// Whether `k` is a key.
    pub fn contains_key(&self, k: &str) -> (r: bool)
        requires
            self.wf(),
        ensures
            r == self.view().dom().contains(k@),
    {
        match self.find(k) {
            Some(i) => {
                proof { self.lemma_at(i as int); }
                true
            },
            None => false,
        }
    }

    /// The value of `k`.
    pub fn get(&self, k: &str) -> (r: Option<&V>)
        requires
            self.wf(),
        ensures
            match r {
                Some(v) => self.view().dom().contains(k@) && self.view()[k@] == *v,
                None => !self.view().dom().contains(k@),
            },
    {
        match self.find(k) {
            Some(i) => {
                proof { self.lemma_at(i as int); }
                Some(&self.entries[i].1)
            },
            None => None,
        }
    }

    /// Sets the value of `k`, replacing any earlier one.
    pub fn insert(&mut self, k: String, v: V)
        requires
            old(self).wf(),
        ensures
            final(self).wf(),
            final(self).view() == old(self).view().insert(k@, v),
    {
        let ghost kv = k@;
        match self.find(k.as_str()) {
            Some(i) => {
                let ghost before = self.entries@;
                self.entries.set(i, (k, v));
                proof {
                    assert forall|a: int, b: int| 0 <= a < b < self.entries@.len()
                        implies self.entries@[a].0@ != self.entries@[b].0@ by {
                        assert(self.entries@[a].0@ == before[a].0@);
                        assert(self.entries@[b].0@ == before[b].0@);
                    }
                    assert forall|x: Seq<char>| #[trigger] self.view().dom().contains(x) <==> old(self).view().insert(kv, v).dom().contains(x) by {
                        if self.view().dom().contains(x) {
                            let j = choose|j: int| 0 <= j < self.entries@.len() && self.entries@[j].0@ == x;
                            assert(before[j].0@ == x);
                        }
                        if old(self).view().dom().contains(x) {
                            let j = choose|j: int| 0 <= j < before.len() && before[j].0@ == x;
                            assert(self.entries@[j].0@ == x);
                        }
                    }
                    assert forall|x: Seq<char>| #[trigger] self.view().dom().contains(x) implies
                        self.view()[x] == old(self).view().insert(kv, v)[x] by {
                        let j = choose|j: int| 0 <= j < self.entries@.len() && self.entries@[j].0@ == x;
                        self.lemma_at(j);
                        if j != i {
                            old(self).lemma_at(j);
                        }
                    }
                    assert(self.view() =~= old(self).view().insert(kv, v));
                }
            },
            None => {
                let ghost before = self.entries@;
                self.entries.push((k, v));
                proof {
                    let n = before.len() as int;
                    assert forall|a: int, b: int| 0 <= a < b < self.entries@.len()
                        implies self.entries@[a].0@ != self.entries@[b].0@ by {
                        assert(self.entries@[a] == before[a]);
                        if b == n {
                            if before[a].0@ == kv {
                                assert(old(self).view().dom().contains(kv));
                            }
                        } else {
                            assert(self.entries@[b] == before[b]);
                        }
                    }
                    assert forall|x: Seq<char>| #[trigger] self.view().dom().contains(x) <==> old(self).view().insert(kv, v).dom().contains(x) by {
                        if self.view().dom().contains(x) && x != kv {
                            let j = choose|j: int| 0 <= j < self.entries@.len() && self.entries@[j].0@ == x;
                            assert(j < n);
                            assert(before[j].0@ == x);
                        }
                        if old(self).view().dom().contains(x) {
                            let j = choose|j: int| 0 <= j < before.len() && before[j].0@ == x;
                            assert(self.entries@[j].0@ == x);
                        }
                        if x == kv {
                            assert(self.entries@[n].0@ == kv);
                        }
                    }
                    assert forall|x: Seq<char>| #[trigger] self.view().dom().contains(x) implies
                        self.view()[x] == old(self).view().insert(kv, v)[x] by {
                        let j = choose|j: int| 0 <= j < self.entries@.len() && self.entries@[j].0@ == x;
                        self.lemma_at(j);
                        if j < n {
                            assert(self.entries@[j] == before[j]);
                            old(self).lemma_at(j);
                        }
                    }
                    assert(self.view() =~= old(self).view().insert(kv, v));
                }
            },
        }
    }

    /// Removes `k` and hands back its value.
    pub fn remove(&mut self, k: &str) -> (r: Option<V>)
        requires
            old(self).wf(),
        ensures
            final(self).wf(),
            final(self).view() == old(self).view().remove(k@),
            match r {
                Some(v) => old(self).view().dom().contains(k@) && old(self).view()[k@] == v,
                None => !old(self).view().dom().contains(k@),
            },
    {
        match self.find(k) {
            Some(i) => {
                proof { self.lemma_at(i as int); }
                let ghost before = self.entries@;
                let (_, v) = self.entries.remove(i);
                proof {
                    assert forall|a: int, b: int| 0 <= a < b < self.entries@.len()
                        implies self.entries@[a].0@ != self.entries@[b].0@ by {
                        let a0 = if a < i { a } else { a + 1 };
                        let b0 = if b < i { b } else { b + 1 };
                        assert(self.entries@[a] == before[a0]);
                        assert(self.entries@[b] == before[b0]);
                    }
                    assert forall|x: Seq<char>| #[trigger] self.view().dom().contains(x) <==> old(self).view().remove(k@).dom().contains(x) by {
                        if self.view().dom().contains(x) {
                            let j = choose|j: int| 0 <= j < self.entries@.len() && self.entries@[j].0@ == x;
                            let j0 = if j < i { j } else { j + 1 };
                            assert(self.entries@[j] == before[j0]);
                            if x == k@ {
                                if j0 < i { assert(before[j0].0@ != before[i as int].0@); }
                                else { assert(before[i as int].0@ != before[j0].0@); }
                            }
                        }
                        if old(self).view().remove(k@).dom().contains(x) {
                            let j0 = choose|j: int| 0 <= j < before.len() && before[j].0@ == x;
                            assert(j0 != i);
                            let j = if j0 < i { j0 } else { j0 - 1 };
                            assert(self.entries@[j] == before[j0]);
                        }
                    }
                    assert forall|x: Seq<char>| #[trigger] self.view().dom().contains(x) implies self.view()[x] == old(self).view()[x] by {
                        let j = choose|j: int| 0 <= j < self.entries@.len() && self.entries@[j].0@ == x;
                        let j0 = if j < i { j } else { j + 1 };
                        assert(self.entries@[j] == before[j0]);
                        self.lemma_at(j);
                        old(self).lemma_at(j0);
                    }
                    assert(self.view() =~= old(self).view().remove(k@));
                }
                Some(v)
            },
            None => {
                assert(self.view() =~= old(self).view().remove(k@));
                None
            },
        }
    }

    /// Removes every key.
    pub fn clear(&mut self)
        ensures
            final(self).wf(),
            final(self).view() == Map::<Seq<char>, V>::empty(),
    {
        self.entries = Vec::new();
        assert(self.view() =~= Map::<Seq<char>, V>::empty());
    }
}

} // verus!
