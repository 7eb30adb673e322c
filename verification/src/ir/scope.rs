//! Lexical scopes of the lowering: the slots of the names each scope defines, and
//! of the names it captures from the scopes around it. The scopes live in one
//! arena and refer to their parent by its position there.
use vstd::prelude::*;
use crate::ir::slot::Slot;

verus! {

/// The position of a scope in its arena.
pub type ScopeRef = usize;

/// A scope: its locals and the names it captured, newest last.
#[derive(Debug)]
pub struct Scope {
    pub name: String,
    pub parent: Option<ScopeRef>,
    /// The locals defined here; a later definition of a name hides an earlier one.
    pub symbols: Vec<(String, Slot)>,
    /// The names captured from enclosing scopes, with their captured slots.
    pub captured: Vec<(String, Slot)>,
    pub next_temp: usize,
    pub next_local: usize,
    pub next_captured: usize,
}

/// All scopes of a lowering, parents before their children.
#[derive(Debug)]
pub struct Scopes {
    scopes: Vec<Scope>,
}

/// The slot of the latest entry for `name`.
pub open spec fn lookup_in(e: Seq<(String, Slot)>, name: Seq<char>) -> Option<Slot>
    decreases e.len(),
{
    if e.len() == 0 {
        None
    } else if e.last().0@ == name {
        Some(e.last().1)
    } else {
        lookup_in(e.drop_last(), name)
    }
}

/// What a scope answers for `name` by itself: its local, else its captured slot.
pub open spec fn lookup_here(sc: Scope, name: Seq<char>) -> Option<Slot> {
    match lookup_in(sc.symbols@, name) {
        Some(x) => Some(x),
        None => lookup_in(sc.captured@, name),
    }
}

/// Whether `name` is known in scope `s` or in one of the scopes around it.
pub open spec fn resolvable(t: Seq<Scope>, s: int, name: Seq<char>) -> bool
    decreases s,
{
    if !(0 <= s < t.len()) {
        false
    } else if lookup_here(t[s], name) is Some {
        true
    } else {
        match t[s].parent {
            Some(p) => if (p as int) < s { resolvable(t, p as int, name) } else { false },
            None => false,
        }
    }
}

/// Two arenas hold the same scopes but for the names captured, which only grew.
pub open spec fn same_but_captures(a: Seq<Scope>, b: Seq<Scope>) -> bool {
    &&& a.len() == b.len()
    &&& forall|i: int| 0 <= i < a.len() ==> {
        &&& (#[trigger] b[i]).name == a[i].name
        &&& b[i].parent == a[i].parent
        &&& b[i].symbols == a[i].symbols
        &&& b[i].temps() == a[i].temps()
        &&& b[i].locals() == a[i].locals()
        &&& b[i].captured@.len() >= a[i].captured@.len()
        &&& b[i].captured@.subrange(0, a[i].captured@.len() as int) == a[i].captured@
    }
}

proof fn lemma_same_refl(t: Seq<Scope>)
    ensures
        same_but_captures(t, t),
{
    assert forall|i: int| 0 <= i < t.len() implies
        (#[trigger] t[i]).captured@.subrange(0, t[i].captured@.len() as int) == t[i].captured@ by {
        assert(t[i].captured@.subrange(0, t[i].captured@.len() as int) =~= t[i].captured@);
    }
}

fn find_slot(e: &Vec<(String, Slot)>, name: &str) -> (r: Option<Slot>)
    ensures
        r == lookup_in(e@, name@),
{
    let mut i = e.len();
    assert(e@.subrange(0, i as int) =~= e@);
    while i > 0
        invariant
            i <= e@.len(),
            lookup_in(e@, name@) == lookup_in(e@.subrange(0, i as int), name@),
        decreases i,
    {
        let ghost pre = e@.subrange(0, i as int);
        assert(pre.drop_last() =~= e@.subrange(0, i as int - 1));
        if crate::text::str_eq(e[i - 1].0.as_str(), name) {
            return Some(e[i - 1].1);
        }
        i -= 1;
    }
    None
}

impl Scope {
    /// The next temporary index.
    pub open spec fn temps(&self) -> nat { self.next_temp as nat }

    /// The next local index.
    pub open spec fn locals(&self) -> nat { self.next_local as nat }

    /// The next captured index.
    pub open spec fn captures(&self) -> nat { self.next_captured as nat }

    /// Adds a scope without parent; it is placed after the others.
    pub fn new_root(scopes: &mut Scopes, name: String) -> (r: ScopeRef)
        requires
            old(scopes).wf(),
        ensures
            final(scopes).wf(),
            r == old(scopes)@.len(),
            final(scopes)@ == old(scopes)@.push(final(scopes)@[r as int]),
            final(scopes)@[r as int].name@ == name@,
            final(scopes)@[r as int].parent is None,
            final(scopes)@[r as int].symbols@.len() == 0,
            final(scopes)@[r as int].captured@.len() == 0,
            final(scopes)@[r as int].temps() == 0,
            final(scopes)@[r as int].locals() == 0,
            final(scopes)@[r as int].captures() == 0,
    {
        let r = scopes.scopes.len();
        scopes.scopes.push(Scope {
            name,
            parent: None,
            symbols: Vec::new(),
            captured: Vec::new(),
            next_temp: 0,
            next_local: 0,
            next_captured: 0,
        });
        proof {
            assert(scopes@.subrange(0, old(scopes)@.len() as int) =~= old(scopes)@);
            scopes.lemma_push_wf(old(scopes)@);
        }
        r
    }

    /// Adds a scope inside `parent`; it is placed after the others.
    pub fn child(scopes: &mut Scopes, parent: ScopeRef, name: String) -> (r: ScopeRef)
        requires
            old(scopes).wf(),
            parent < old(scopes)@.len(),
        ensures
            final(scopes).wf(),
            r == old(scopes)@.len(),
            final(scopes)@ == old(scopes)@.push(final(scopes)@[r as int]),
            final(scopes)@[r as int].name@ == name@,
            final(scopes)@[r as int].parent == Some(parent),
            final(scopes)@[r as int].symbols@.len() == 0,
            final(scopes)@[r as int].captured@.len() == 0,
            final(scopes)@[r as int].temps() == 0,
            final(scopes)@[r as int].locals() == 0,
            final(scopes)@[r as int].captures() == 0,
    {
        let r = scopes.scopes.len();
        scopes.scopes.push(Scope {
            name,
            parent: Some(parent),
            symbols: Vec::new(),
            captured: Vec::new(),
            next_temp: 0,
            next_local: 0,
            next_captured: 0,
        });
        proof {
            assert(scopes@.subrange(0, old(scopes)@.len() as int) =~= old(scopes)@);
            scopes.lemma_push_wf(old(scopes)@);
        }
        r
    }

    /// Defines `name` in scope `s` as its next local; the name now answers with it.
    pub fn define_local(scopes: &mut Scopes, s: ScopeRef, name: String) -> (r: Slot)
        requires
            old(scopes).wf(),
            s < old(scopes)@.len(),
            old(scopes)@[s as int].locals() < usize::MAX,
        ensures
            final(scopes).wf(),
            r == Slot::Local(old(scopes)@[s as int].locals() as usize),
            final(scopes)@.len() == old(scopes)@.len(),
            forall|i: int| 0 <= i < old(scopes)@.len() && i != s ==> #[trigger] final(scopes)@[i] == old(scopes)@[i],
            final(scopes)@[s as int].name == old(scopes)@[s as int].name,
            final(scopes)@[s as int].parent == old(scopes)@[s as int].parent,
            final(scopes)@[s as int].symbols@.len() == old(scopes)@[s as int].symbols@.len() + 1,
            final(scopes)@[s as int].symbols@.last().0@ == name@,
            final(scopes)@[s as int].symbols@.last().1 == r,
            final(scopes)@[s as int].symbols@.drop_last() == old(scopes)@[s as int].symbols@,
            final(scopes)@[s as int].captured == old(scopes)@[s as int].captured,
            final(scopes)@[s as int].temps() == old(scopes)@[s as int].temps(),
            final(scopes)@[s as int].locals() == old(scopes)@[s as int].locals() + 1,
            final(scopes)@[s as int].captures() == old(scopes)@[s as int].captures(),
            lookup_here(final(scopes)@[s as int], name@) == Some(r),
    {
        let mut sc = scopes.scopes.remove(s);
        let slot = Slot::Local(sc.next_local);
        sc.next_local = sc.next_local + 1;
        sc.symbols.push((name, slot));
        scopes.scopes.insert(s, sc);
        proof {
            assert forall|i: int| 0 <= i < old(scopes)@.len() && i != s implies #[trigger] scopes@[i] == old(scopes)@[i] by {
                if i < s { assert(scopes@[i] == old(scopes)@[i]); } else { assert(scopes@[i] == old(scopes)@[i]); }
            }
            assert(scopes@[s as int].symbols@.drop_last() =~= old(scopes)@[s as int].symbols@);
            scopes.lemma_update_wf(old(scopes)@, s as int);
        }
        slot
    }

    /// Allocates the next temporary of scope `s`.
    pub fn allocate_temp(scopes: &mut Scopes, s: ScopeRef) -> (r: Slot)
        requires
            old(scopes).wf(),
            s < old(scopes)@.len(),
            old(scopes)@[s as int].temps() < usize::MAX,
        ensures
            final(scopes).wf(),
            r == Slot::Temp(old(scopes)@[s as int].temps() as usize),
            final(scopes)@.len() == old(scopes)@.len(),
            forall|i: int| 0 <= i < old(scopes)@.len() && i != s ==> #[trigger] final(scopes)@[i] == old(scopes)@[i],
            final(scopes)@[s as int].name == old(scopes)@[s as int].name,
            final(scopes)@[s as int].parent == old(scopes)@[s as int].parent,
            final(scopes)@[s as int].symbols == old(scopes)@[s as int].symbols,
            final(scopes)@[s as int].captured == old(scopes)@[s as int].captured,
            final(scopes)@[s as int].temps() == old(scopes)@[s as int].temps() + 1,
            final(scopes)@[s as int].locals() == old(scopes)@[s as int].locals(),
            final(scopes)@[s as int].captures() == old(scopes)@[s as int].captures(),
    {
        let mut sc = scopes.scopes.remove(s);
        let slot = Slot::Temp(sc.next_temp);
        sc.next_temp = sc.next_temp + 1;
        scopes.scopes.insert(s, sc);
        proof {
            assert forall|i: int| 0 <= i < old(scopes)@.len() && i != s implies #[trigger] scopes@[i] == old(scopes)@[i] by {
                if i < s { assert(scopes@[i] == old(scopes)@[i]); } else { assert(scopes@[i] == old(scopes)@[i]); }
            }
            scopes.lemma_update_wf(old(scopes)@, s as int);
        }
        slot
    }

    /// The slot of `name` seen from scope `s`: its local, else its captured slot,
    /// else, when a scope around it knows the name, a new captured slot of `s`
    /// (each scope on the way captures it as well). Once resolved, the name is
    /// answered by `s` itself, and resolving it again changes nothing.
    pub fn resolve(scopes: &mut Scopes, s: ScopeRef, name: &str) -> (r: Option<Slot>)
        requires
            old(scopes).wf(),
            s < old(scopes)@.len(),
            forall|i: int| 0 <= i <= s ==> #[trigger] old(scopes)@[i].captures() < usize::MAX,
        ensures
            final(scopes).wf(),
            same_but_captures(old(scopes)@, final(scopes)@),
            forall|i: int| s < i < old(scopes)@.len() ==> #[trigger] final(scopes)@[i] == old(scopes)@[i],
            r is Some <==> resolvable(old(scopes)@, s as int, name@),
            lookup_here(old(scopes)@[s as int], name@) is Some ==> r == lookup_here(old(scopes)@[s as int], name@)
                && final(scopes)@ == old(scopes)@,
            r is None ==> final(scopes)@ == old(scopes)@,
            lookup_here(old(scopes)@[s as int], name@) is None && r is Some ==> {
                &&& r == Some(Slot::Captured(old(scopes)@[s as int].captures() as usize))
                &&& final(scopes)@[s as int].captured@.len() == old(scopes)@[s as int].captured@.len() + 1
                &&& final(scopes)@[s as int].captured@.last().0@ == name@
                &&& final(scopes)@[s as int].captured@.last().1 == r.unwrap()
                &&& final(scopes)@[s as int].captures() == old(scopes)@[s as int].captures() + 1
            },
            r is Some ==> lookup_here(final(scopes)@[s as int], name@) == r,
            forall|i: int| 0 <= i < old(scopes)@.len() ==> old(scopes)@[i].captures() <= #[trigger] final(scopes)@[i].captures()
                && final(scopes)@[i].captures() <= old(scopes)@[i].captures() + 1,
        decreases s,
    {
        proof { lemma_same_refl(old(scopes)@); }
        let direct = find_slot(&scopes.scopes[s].symbols, name);
        if direct.is_some() {
            return direct;
        }
        let cap = find_slot(&scopes.scopes[s].captured, name);
        if cap.is_some() {
            return cap;
        }
        let parent = scopes.scopes[s].parent;
        match parent {
            None => None,
            Some(p) => {
                proof { assert(p < s); }
                let found = Scope::resolve(scopes, p, name);
                match found {
                    None => None,
                    Some(_) => {
                        let ghost mid = scopes@;
                        proof {
                            assert(mid[s as int] == old(scopes)@[s as int]);
                            assert(old(scopes)@[s as int].captures() < usize::MAX);
                        }
                        let mut sc = scopes.scopes.remove(s);
                        let slot = Slot::Captured(sc.next_captured);
                        sc.next_captured = sc.next_captured + 1;
                        sc.captured.push((String::from_str(name), slot));
                        scopes.scopes.insert(s, sc);
                        proof {
                            assert(mid[s as int] == old(scopes)@[s as int]);
                            assert forall|i: int| 0 <= i < mid.len() && i != s implies #[trigger] scopes@[i] == mid[i] by {
                                if i < s { assert(scopes@[i] == mid[i]); } else { assert(scopes@[i] == mid[i]); }
                            }
                            assert(scopes@[s as int].captured@.subrange(0, old(scopes)@[s as int].captured@.len() as int)
                                =~= old(scopes)@[s as int].captured@);
                            assert(scopes@[s as int].captured@.drop_last() =~= old(scopes)@[s as int].captured@);
                            assert forall|i: int| 0 <= i < old(scopes)@.len() implies {
                                &&& (#[trigger] scopes@[i]).name == old(scopes)@[i].name
                                &&& scopes@[i].parent == old(scopes)@[i].parent
                                &&& scopes@[i].symbols == old(scopes)@[i].symbols
                                &&& scopes@[i].temps() == old(scopes)@[i].temps()
                                &&& scopes@[i].locals() == old(scopes)@[i].locals()
                                &&& scopes@[i].captured@.len() >= old(scopes)@[i].captured@.len()
                                &&& scopes@[i].captured@.subrange(0, old(scopes)@[i].captured@.len() as int) == old(scopes)@[i].captured@
                            } by {
                                if i != s {
                                    assert(scopes@[i] == mid[i]);
                                }
                            }
                            scopes.lemma_update_wf(mid, s as int);
                        }
                        Some(slot)
                    },
                }
            },
        }
    }
}

impl View for Scopes {
    type V = Seq<Scope>;

    closed spec fn view(&self) -> Seq<Scope> {
        self.scopes@
    }
}

impl Scopes {
    /// Every scope's parent comes before it.
    pub open spec fn wf(&self) -> bool {
        forall|i: int| 0 <= i < self@.len() ==> match (#[trigger] self@[i]).parent {
            Some(p) => (p as int) < i,
            None => true,
        }
    }

    /// An empty arena.
    pub fn new() -> (r: Self)
        ensures
            r.wf(),
            r@.len() == 0,
    {
        Scopes { scopes: Vec::new() }
    }

    /// The scope at `s`.
    pub fn get(&self, s: ScopeRef) -> (r: &Scope)
        requires
            s < self@.len(),
        ensures
            *r == self@[s as int],
    {
        &self.scopes[s]
    }

    proof fn lemma_push_wf(&self, before: Seq<Scope>)
        requires
            self@.len() == before.len() + 1,
            self@.subrange(0, before.len() as int) == before,
            forall|i: int| 0 <= i < before.len() ==> match (#[trigger] before[i]).parent {
                Some(p) => (p as int) < i,
                None => true,
            },
            match self@.last().parent {
                Some(p) => (p as int) < before.len(),
                None => true,
            },
        ensures
            self.wf(),
    {
        assert forall|i: int| 0 <= i < self@.len() implies match (#[trigger] self@[i]).parent {
            Some(p) => (p as int) < i,
            None => true,
        } by {
            if i < before.len() {
                assert(self@[i] == self@.subrange(0, before.len() as int)[i]);
            }
        }
    }

    proof fn lemma_update_wf(&self, before: Seq<Scope>, s: int)
        requires
            self@.len() == before.len(),
            0 <= s < before.len(),
            forall|i: int| 0 <= i < before.len() ==> match (#[trigger] before[i]).parent {
                Some(p) => (p as int) < i,
                None => true,
            },
            forall|i: int| 0 <= i < before.len() && i != s ==> #[trigger] self@[i] == before[i],
            self@[s].parent == before[s].parent,
        ensures
            self.wf(),
    {
        assert forall|i: int| 0 <= i < self@.len() implies match (#[trigger] self@[i]).parent {
            Some(p) => (p as int) < i,
            None => true,
        } by {
            if i != s {
                assert(self@[i] == before[i]);
            } else {
                assert(before[s].parent == self@[s].parent);
            }
        }
    }
}

} // verus!
