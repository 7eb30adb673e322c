//! Small maps and sets keyed by slots, used by the optimization passes.
use vstd::prelude::*;
use crate::ir::slot::Slot;

verus! {

/// A map from slots to values, viewed as a map from slots to the values' views.
pub struct SlotMap<V: View> {
    entries: Vec<(Slot, V)>,
}

impl<V: View> SlotMap<V> {
    #[verifier::type_invariant]
    spec fn keys_distinct(&self) -> bool {
        forall|i: int, j: int| 0 <= i < j < self.entries@.len() ==> self.entries@[i].0 != self.entries@[j].0
    }

    /// The map this value holds.
    pub closed spec fn view(&self) -> Map<Slot, V::V> {
        Map::new(
            |s: Slot| exists|i: int| 0 <= i < self.entries@.len() && self.entries@[i].0 == s,
            |s: Slot| self.entries@[choose|i: int| 0 <= i < self.entries@.len() && self.entries@[i].0 == s].1@,
        )
    }

    /// The empty map.
    pub fn new() -> (r: Self)
        ensures
            r.view() == Map::<Slot, V::V>::empty(),
    {
        let r = SlotMap { entries: Vec::new() };
        assert(r.view() =~= Map::<Slot, V::V>::empty());
        r
    }

    fn find(&self, s: Slot) -> (r: Option<usize>)
        ensures
            match r {
                Some(i) => i < self.entries@.len() && self.entries@[i as int].0 == s,
                None => forall|j: int| 0 <= j < self.entries@.len() ==> self.entries@[j].0 != s,
            },
    {
        let mut i: usize = 0;
        while i < self.entries.len()
            invariant
                i <= self.entries@.len(),
                forall|j: int| 0 <= j < i ==> self.entries@[j].0 != s,
            decreases self.entries@.len() - i,
        {
            if self.entries[i].0 == s {
                return Some(i);
            }
            i += 1;
        }
        None
    }

    /// The value bound to `s`, if any.
    pub fn get(&self, s: Slot) -> (r: Option<&V>)
        ensures
            match r {
                Some(v) => self.view().contains_key(s) && self.view()[s] == v@,
                None => !self.view().contains_key(s),
            },
    {
        proof { use_type_invariant(self); }
        match self.find(s) {
            Some(i) => {
                proof {
                    assert(self.view().contains_key(s));
                    let c = choose|k: int| 0 <= k < self.entries@.len() && self.entries@[k].0 == s;
                    if c != i as int {
                        if c < i as int {
                            assert(self.entries@[c].0 != self.entries@[i as int].0);
                        } else {
                            assert(self.entries@[i as int].0 != self.entries@[c].0);
                        }
                    }
                }
                Some(&self.entries[i].1)
            },
            None => None,
        }
    }

    /// Binds `s` to `v`, replacing any earlier binding.
    pub fn insert(&mut self, s: Slot, v: V)
        ensures
            final(self).view() == old(self).view().insert(s, v@),
    {
        proof { use_type_invariant(&*self); }
        let ghost vv = v@;
        match self.find(s) {
            Some(i) => {
                let ghost before = self.entries@;
                let mut e: Vec<(Slot, V)> = Vec::new();
                std::mem::swap(&mut e, &mut self.entries);
                e.set(i, (s, v));
                proof {
                    assert forall|a: int, b: int| 0 <= a < b < e@.len() implies e@[a].0 != e@[b].0 by {
                        assert(before[a].0 != before[b].0);
                    }
                }
                self.entries = e;
            },
            None => {
                let mut e: Vec<(Slot, V)> = Vec::new();
                std::mem::swap(&mut e, &mut self.entries);
                e.push((s, v));
                self.entries = e;
            },
        }
        proof {
            use_type_invariant(&*self);
            assert forall|t: Slot| #[trigger] self.view().contains_key(t) == old(self).view().insert(s, vv).contains_key(t) by {
                if t != s && self.view().contains_key(t) {
                    let k = choose|k: int| 0 <= k < self.entries@.len() && self.entries@[k].0 == t;
                    if k < old(self).entries@.len() {
                        assert(old(self).entries@[k].0 == t);
                    }
                }
                if t != s && old(self).view().contains_key(t) {
                    let k = choose|k: int| 0 <= k < old(self).entries@.len() && old(self).entries@[k].0 == t;
                    assert(self.entries@[k].0 == t);
                }
                if t == s {
                    let k = if self.entries@.len() > old(self).entries@.len() { old(self).entries@.len() as int } else {
                        choose|k: int| 0 <= k < old(self).entries@.len() && old(self).entries@[k].0 == s };
                    assert(self.entries@[k].0 == s);
                }
            }
            assert forall|t: Slot| #[trigger] self.view().contains_key(t) implies self.view()[t] == old(self).view().insert(s, vv)[t] by {
                let k = choose|k: int| 0 <= k < self.entries@.len() && self.entries@[k].0 == t;
                if t == s {
                    assert(self.entries@[k].1@ == vv);
                } else {
                    assert(old(self).view().contains_key(t));
                    let k2 = choose|k2: int| 0 <= k2 < old(self).entries@.len() && old(self).entries@[k2].0 == t;
                    assert(self.entries@[k2].0 == t);
                    if k != k2 {
                        if k < k2 { assert(self.entries@[k].0 != self.entries@[k2].0); }
                        else { assert(self.entries@[k2].0 != self.entries@[k].0); }
                    }
                    assert(self.entries@[k2] == old(self).entries@[k2]);
                }
            }
            assert(self.view() =~= old(self).view().insert(s, vv));
        }
    }

    /// Drops the binding of `s`, if any.
    pub fn remove(&mut self, s: Slot)
        ensures
            final(self).view() == old(self).view().remove(s),
    {
        proof { use_type_invariant(&*self); }
        match self.find(s) {
            Some(i) => {
                let ghost before = self.entries@;
                let mut e: Vec<(Slot, V)> = Vec::new();
                std::mem::swap(&mut e, &mut self.entries);
                e.remove(i);
                proof {
                    assert forall|a: int, b: int| 0 <= a < b < e@.len() implies e@[a].0 != e@[b].0 by {
                        let a0 = if a < i { a } else { a + 1 };
                        let b0 = if b < i { b } else { b + 1 };
                        assert(e@[a] == before[a0]);
                        assert(e@[b] == before[b0]);
                        assert(before[a0].0 != before[b0].0);
                    }
                }
                self.entries = e;
                proof {
                    use_type_invariant(&*self);
                    assert forall|t: Slot| #[trigger] self.view().contains_key(t) == old(self).view().remove(s).contains_key(t) by {
                        if self.view().contains_key(t) {
                            let k = choose|k: int| 0 <= k < self.entries@.len() && self.entries@[k].0 == t;
                            let k0 = if k < i { k } else { k + 1 };
                            assert(before[k0].0 == t);
                            assert(t != s) by {
                                if t == s {
                                    if k0 < i { assert(before[k0].0 != before[i as int].0); }
                                    else { assert(before[i as int].0 != before[k0].0); }
                                }
                            }
                        }
                        if old(self).view().remove(s).contains_key(t) {
                            let k0 = choose|k0: int| 0 <= k0 < before.len() && before[k0].0 == t;
                            assert(k0 != i);
                            let k = if k0 < i { k0 } else { k0 - 1 };
                            assert(self.entries@[k].0 == t);
                        }
                    }
                    assert forall|t: Slot| #[trigger] self.view().contains_key(t) implies self.view()[t] == old(self).view().remove(s)[t] by {
                        let k = choose|k: int| 0 <= k < self.entries@.len() && self.entries@[k].0 == t;
                        let k0 = if k < i { k } else { k + 1 };
                        assert(before[k0].0 == t);
                        let c = choose|c: int| 0 <= c < before.len() && before[c].0 == t;
                        if c != k0 {
                            if c < k0 { assert(before[c].0 != before[k0].0); }
                            else { assert(before[k0].0 != before[c].0); }
                        }
                    }
                    assert(self.view() =~= old(self).view().remove(s));
                }
            },
            None => {
                assert(self.view() =~= old(self).view().remove(s));
            },
        }
    }

    /// Whether the map is empty.
    pub fn is_empty(&self) -> (r: bool)
        ensures
            r == (self.view() == Map::<Slot, V::V>::empty()),
    {
        if self.entries.len() == 0 {
            assert(self.view() =~= Map::<Slot, V::V>::empty());
            true
        } else {
            assert(self.view().contains_key(self.entries@[0].0));
            false
        }
    }

    /// Drops every binding.
    pub fn clear(&mut self)
        ensures
            final(self).view() == Map::<Slot, V::V>::empty(),
    {
        self.entries = Vec::new();
        assert(self.view() =~= Map::<Slot, V::V>::empty());
    }
}

/// A set of slots.
pub struct SlotSet {
    items: Vec<Slot>,
}

impl SlotSet {
    /// The set this value holds.
    pub closed spec fn view(&self) -> Set<Slot> {
        self.items@.to_set()
    }

    /// The empty set.
    pub fn new() -> (r: Self)
        ensures
            r.view() == Set::<Slot>::empty(),
    {
        let r = SlotSet { items: Vec::new() };
        assert(r.view() =~= Set::<Slot>::empty());
        r
    }

    /// Whether `s` is in the set.
    pub fn contains(&self, s: Slot) -> (r: bool)
        ensures
            r == self.view().contains(s),
    {
        let mut i: usize = 0;
        while i < self.items.len()
            invariant
                i <= self.items@.len(),
                forall|j: int| 0 <= j < i ==> self.items@[j] != s,
            decreases self.items@.len() - i,
        {
            if self.items[i] == s {
                assert(self.items@.to_set().contains(s)) by {
                    assert(self.items@.contains(s));
                }
                return true;
            }
            i += 1;
        }
        assert(!self.items@.contains(s));
        false
    }

    /// Adds `s` to the set.
    pub fn insert(&mut self, s: Slot)
        ensures
            final(self).view() == old(self).view().insert(s),
    {
        self.items.push(s);
        assert forall|t: Slot| #[trigger] self.items@.contains(t) == (old(self).items@.contains(t) || t == s) by {
            if self.items@.contains(t) {
                let k = choose|k: int| 0 <= k < self.items@.len() && self.items@[k] == t;
                if k < old(self).items@.len() {
                    assert(old(self).items@[k] == t);
                }
            }
            if old(self).items@.contains(t) {
                let k = choose|k: int| 0 <= k < old(self).items@.len() && old(self).items@[k] == t;
                assert(self.items@[k] == t);
            }
            if t == s {
                assert(self.items@[old(self).items@.len() as int] == s);
            }
        }
        assert(self.view() =~= old(self).view().insert(s));
    }
}

} // verus!
