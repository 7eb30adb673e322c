//! The state of lowering to the slot-based IR: emitted instructions, a stack of
//! frames mapping names to slots, slot counters, and what the current scope region
//! has initialized and called.
use vstd::prelude::*;
use crate::ir::op::Op;
use crate::ir::slot::Slot;
use crate::strmap::StrMap;
use crate::text::push_str;
use crate::ast::node::AstNode;
use crate::ast::kind::AstNodeKind;

verus! {

/// Gives each name in turn its slot: the one a frame maps it to, else the next
/// local, mapped in the innermost frame. The frames, the next local and the slots.
pub open spec fn ensure_locals(frames: Seq<Map<Seq<char>, Slot>>, next: usize, names: Seq<Seq<char>>)
    -> (Seq<Map<Seq<char>, Slot>>, usize, Seq<Slot>)
    decreases names.len(),
{
    if names.len() == 0 {
        (frames, next, Seq::empty())
    } else {
        let (f1, n1, sl) = ensure_locals(frames, next, names.drop_last());
        let name = names.last();
        match frame_lookup(f1, name) {
            Some(slot) => (f1, n1, sl.push(slot)),
            None => {
                let slot = Slot::Local(n1);
                (f1.update(f1.len() - 1, f1[f1.len() - 1].insert(name, slot)), (n1 + 1) as usize, sl.push(slot))
            },
        }
    }
}

/// The slot of `name` in the innermost frame that maps it.
pub open spec fn frame_lookup(frames: Seq<Map<Seq<char>, Slot>>, name: Seq<char>) -> Option<Slot>
    decreases frames.len(),
{
    if frames.len() == 0 {
        None
    } else if frames.last().dom().contains(name) {
        Some(frames.last()[name])
    } else {
        frame_lookup(frames.drop_last(), name)
    }
}

/// The names of the identifiers of a list of nodes, in order.
pub open spec fn identifiers(s: Seq<AstNode>) -> Seq<Seq<char>>
    decreases s.len(),
{
    if s.len() == 0 {
        Seq::empty()
    } else {
        let rest = identifiers(s.drop_last());
        match s.last().kind {
            AstNodeKind::Identifier { name } => rest.push(name@),
            _ => rest,
        }
    }
}

/// The parameter names of a stage: the identifiers of its argument list.
pub open spec fn arg_identifiers(args: Option<Box<AstNode>>) -> Seq<Seq<char>> {
    match args {
        Some(a) => match a.kind {
            AstNodeKind::Arguments { args: ps } => identifiers(ps@),
            _ => Seq::empty(),
        },
        None => Seq::empty(),
    }
}

/// The texts of a list of strings.
pub open spec fn string_views(s: Seq<String>) -> Seq<Seq<char>> {
    s.map_values(|x: String| x@)
}

/// Mapping a name in the innermost frame leaves what other names map to.
proof fn lemma_lookup_after_insert(frames: Seq<Map<Seq<char>, Slot>>, other: Seq<char>, name: Seq<char>, s: Slot)
    requires
        frames.len() > 0,
        other != name,
    ensures
        frame_lookup(frames.update(frames.len() - 1, frames[frames.len() - 1].insert(name, s)), other)
            == frame_lookup(frames, other),
{
    let n = frames.len() as int;
    let after = frames.update(n - 1, frames[n - 1].insert(name, s));
    assert(after.drop_last() =~= frames.drop_last());
    assert(after.last() == frames.last().insert(name, s));
}

/// Lowering state.
#[derive(Debug)]
pub struct LowerCtx {
    ops: Vec<Op>,
    frames: Vec<StrMap<Slot>>,
    next_local: usize,
    next_temp: usize,
    scope_names: StrMap<()>,
    current_scope: Option<String>,
    initialized_members: StrMap<StrMap<()>>,
    called_scopes: StrMap<()>,
    param_names: StrMap<Vec<String>>,
    param_slots: StrMap<Vec<Slot>>,
    entry: String,
    prev_next_local: Vec<usize>,
}

impl LowerCtx {
    /// The emitted instructions.
    pub closed spec fn code(&self) -> Seq<Op> { self.ops@ }

    /// The frames, outermost first.
    pub closed spec fn frames_view(&self) -> Seq<Map<Seq<char>, Slot>> {
        self.frames@.map_values(|f: StrMap<Slot>| f.view())
    }

    /// The next local index.
    pub closed spec fn locals_next(&self) -> usize { self.next_local }

    /// The next temporary index.
    pub closed spec fn temps_next(&self) -> usize { self.next_temp }

    /// The local counters saved by frames that reset them, innermost last.
    pub closed spec fn saved_locals(&self) -> Seq<usize> { self.prev_next_local@ }

    /// The scope region being lowered.
    pub closed spec fn scope(&self) -> Option<Seq<char>> {
        match self.current_scope {
            Some(s) => Some(s@),
            None => None,
        }
    }

    /// The scopes recorded so far.
    pub closed spec fn scopes_seen(&self) -> Set<Seq<char>> { self.scope_names.view().dom() }

    /// The members initialized in each scope.
    pub closed spec fn members(&self) -> Map<Seq<char>, Set<Seq<char>>> {
        Map::new(
            |k: Seq<char>| self.initialized_members.view().dom().contains(k),
            |k: Seq<char>| self.initialized_members.view()[k].view().dom(),
        )
    }

    /// The scopes called in the current region.
    pub closed spec fn called(&self) -> Set<Seq<char>> { self.called_scopes.view().dom() }

    /// The parameter names of each recorded scope that has parameters.
    pub closed spec fn params(&self) -> Map<Seq<char>, Seq<Seq<char>>> {
        Map::new(
            |k: Seq<char>| self.param_names.view().dom().contains(k),
            |k: Seq<char>| self.param_names.view()[k]@.map_values(|s: String| s@),
        )
    }

    /// The slots given to the parameters of each scope region entered.
    pub closed spec fn param_slot_map(&self) -> Map<Seq<char>, Seq<Slot>> {
        Map::new(
            |k: Seq<char>| self.param_slots.view().dom().contains(k),
            |k: Seq<char>| self.param_slots.view()[k]@,
        )
    }

    /// Every map of the state has distinct keys.
    pub closed spec fn wf(&self) -> bool {
        &&& forall|i: int| 0 <= i < self.frames@.len() ==> (#[trigger] self.frames@[i]).wf()
        &&& self.scope_names.wf()
        &&& self.initialized_members.wf()
        &&& forall|k: Seq<char>| #[trigger] self.initialized_members.view().dom().contains(k)
            ==> self.initialized_members.view()[k].wf()
        &&& self.called_scopes.wf()
        &&& self.param_names.wf()
        &&& self.param_slots.wf()
    }

    /// A fresh state: no instructions, one empty frame, counters at zero.
    pub fn new() -> (r: Self)
        ensures
            r.wf(),
            r.code().len() == 0,
            r.frames_view() == seq![Map::<Seq<char>, Slot>::empty()],
            r.locals_next() == 0,
            r.temps_next() == 0,
            r.saved_locals().len() == 0,
            r.scope() is None,
            r.scopes_seen() == Set::<Seq<char>>::empty(),
            r.members() == Map::<Seq<char>, Set<Seq<char>>>::empty(),
            r.called() == Set::<Seq<char>>::empty(),
            r.params() == Map::<Seq<char>, Seq<Seq<char>>>::empty(),
            r.param_slot_map() == Map::<Seq<char>, Seq<Slot>>::empty(),
    {
        let mut frames: Vec<StrMap<Slot>> = Vec::new();
        frames.push(StrMap::new());
        let r = LowerCtx {
            ops: Vec::new(),
            frames,
            next_local: 0,
            next_temp: 0,
            scope_names: StrMap::new(),
            current_scope: None,
            initialized_members: StrMap::new(),
            called_scopes: StrMap::new(),
            param_names: StrMap::new(),
            param_slots: StrMap::new(),
            entry: String::new(),
            prev_next_local: Vec::new(),
        };
        assert(r.frames_view() =~= seq![Map::<Seq<char>, Slot>::empty()]);
        assert(r.members() =~= Map::<Seq<char>, Set<Seq<char>>>::empty());
        assert(r.params() =~= Map::<Seq<char>, Seq<Seq<char>>>::empty());
        assert(r.param_slot_map() =~= Map::<Seq<char>, Seq<Slot>>::empty());
        r
    }

    /// Appends an instruction.
    pub fn emit(&mut self, op: Op)
        ensures
            final(self).code() == old(self).code().push(op),
            final(self).frames_view() == old(self).frames_view(),
            final(self).locals_next() == old(self).locals_next(),
            final(self).temps_next() == old(self).temps_next(),
            final(self).saved_locals() == old(self).saved_locals(),
            final(self).scope() == old(self).scope(),
            final(self).members() == old(self).members(),
            final(self).called() == old(self).called(),
            final(self).params() == old(self).params(),
            final(self).param_slot_map() == old(self).param_slot_map(),
            old(self).wf() ==> final(self).wf(),
    {
        self.ops.push(op);
    }

    /// A fresh temporary.
    pub fn temp(&mut self) -> (r: Slot)
        requires
            old(self).temps_next() < usize::MAX,
        ensures
            r == Slot::Temp(old(self).temps_next()),
            final(self).temps_next() == old(self).temps_next() + 1,
            final(self).code() == old(self).code(),
            final(self).frames_view() == old(self).frames_view(),
            final(self).locals_next() == old(self).locals_next(),
            old(self).wf() ==> final(self).wf(),
    {
        let s = Slot::Temp(self.next_temp);
        self.next_temp = self.next_temp + 1;
        s
    }

    /// The slot of `name` in the innermost frame that maps it.
    pub fn lookup_local(&self, name: &str) -> (r: Option<Slot>)
        requires
            self.wf(),
        ensures
            r == frame_lookup(self.frames_view(), name@),
    {
        let mut i = self.frames.len();
        assert(self.frames_view().subrange(0, i as int) =~= self.frames_view());
        while i > 0
            invariant
                i <= self.frames@.len(),
                self.wf(),
                frame_lookup(self.frames_view(), name@) == frame_lookup(self.frames_view().subrange(0, i as int), name@),
            decreases i,
        {
            let ghost pre = self.frames_view().subrange(0, i as int);
            assert(pre.drop_last() =~= self.frames_view().subrange(0, i - 1));
            assert(pre.last() == self.frames@[i - 1].view());
            match self.frames[i - 1].get(name) {
                Some(s) => {
                    return Some(*s);
                },
                None => {},
            }
            i -= 1;
        }
        None
    }

    /// The slot of `name`: the one a frame gives it, else a new local in the
    /// innermost frame.
    pub fn ensure_local(&mut self, name: &str) -> (r: Slot)
        requires
            old(self).wf(),
            old(self).frames_view().len() > 0,
            old(self).locals_next() < usize::MAX,
        ensures
            final(self).wf(),
            final(self).code() == old(self).code(),
            final(self).temps_next() == old(self).temps_next(),
            final(self).saved_locals() == old(self).saved_locals(),
            final(self).scope() == old(self).scope(),
            final(self).members() == old(self).members(),
            final(self).called() == old(self).called(),
            final(self).params() == old(self).params(),
            final(self).param_slot_map() == old(self).param_slot_map(),
            match frame_lookup(old(self).frames_view(), name@) {
                Some(s) => r == s && final(self).frames_view() == old(self).frames_view()
                    && final(self).locals_next() == old(self).locals_next(),
                None => {
                    let n = old(self).frames_view().len() as int;
                    &&& r == Slot::Local(old(self).locals_next())
                    &&& final(self).locals_next() == old(self).locals_next() + 1
                    &&& final(self).frames_view() == old(self).frames_view().update(n - 1,
                        old(self).frames_view()[n - 1].insert(name@, r))
                },
            },
            frame_lookup(final(self).frames_view(), name@) == Some(r),
    {
        match self.lookup_local(name) {
            Some(s) => {
                return s;
            },
            None => {},
        }
        let idx = self.next_local;
        self.next_local = self.next_local + 1;
        let slot = Slot::Local(idx);
        let n = self.frames.len();
        let mut f = self.frames.remove(n - 1);
        let ghost before = self.frames@;
        f.insert(String::from_str(name), slot);
        self.frames.push(f);
        proof {
            assert(self.frames@.drop_last() == before);
            assert(self.frames_view() =~= old(self).frames_view().update(n - 1,
                old(self).frames_view()[n - 1].insert(name@, slot)));
            assert forall|i: int| 0 <= i < self.frames@.len() implies (#[trigger] self.frames@[i]).wf() by {
                if i < n - 1 {
                    assert(self.frames@[i] == old(self).frames@[i]);
                }
            }
        }
        slot
    }

    /// Opens a frame; when `reset_locals` holds, locals are numbered from 0 again
    /// until the frame is closed.
    pub fn push_frame(&mut self, reset_locals: bool)
        requires
            old(self).wf(),
        ensures
            final(self).wf(),
            final(self).frames_view() == old(self).frames_view().push(Map::<Seq<char>, Slot>::empty()),
            reset_locals ==> final(self).saved_locals() == old(self).saved_locals().push(old(self).locals_next())
                && final(self).locals_next() == 0,
            !reset_locals ==> final(self).saved_locals() == old(self).saved_locals()
                && final(self).locals_next() == old(self).locals_next(),
            final(self).code() == old(self).code(),
            final(self).temps_next() == old(self).temps_next(),
            final(self).scope() == old(self).scope(),
            final(self).members() == old(self).members(),
            final(self).called() == old(self).called(),
            final(self).params() == old(self).params(),
            final(self).param_slot_map() == old(self).param_slot_map(),
    {
        if reset_locals {
            self.prev_next_local.push(self.next_local);
            self.next_local = 0;
        }
        self.frames.push(StrMap::new());
        proof {
            assert(self.frames_view() =~= old(self).frames_view().push(Map::<Seq<char>, Slot>::empty()));
            assert forall|i: int| 0 <= i < self.frames@.len() implies (#[trigger] self.frames@[i]).wf() by {
                if i < old(self).frames@.len() {
                    assert(self.frames@[i] == old(self).frames@[i]);
                }
            }
        }
    }

    /// Closes the innermost frame; the last saved local counter, if any, comes back.
    pub fn pop_frame(&mut self)
        requires
            old(self).wf(),
        ensures
            final(self).wf(),
            old(self).frames_view().len() > 0 ==> final(self).frames_view() == old(self).frames_view().drop_last(),
            old(self).frames_view().len() == 0 ==> final(self).frames_view() == old(self).frames_view(),
            old(self).saved_locals().len() > 0 ==> final(self).saved_locals() == old(self).saved_locals().drop_last()
                && final(self).locals_next() == old(self).saved_locals().last(),
            old(self).saved_locals().len() == 0 ==> final(self).saved_locals() == old(self).saved_locals()
                && final(self).locals_next() == old(self).locals_next(),
            final(self).code() == old(self).code(),
            final(self).temps_next() == old(self).temps_next(),
            final(self).scope() == old(self).scope(),
            final(self).members() == old(self).members(),
            final(self).called() == old(self).called(),
            final(self).params() == old(self).params(),
            final(self).param_slot_map() == old(self).param_slot_map(),
    {
        let _ = self.frames.pop();
        match self.prev_next_local.pop() {
            Some(prev) => { self.next_local = prev; },
            None => {},
        }
        proof {
            if old(self).frames@.len() > 0 {
                assert(self.frames_view() =~= old(self).frames_view().drop_last());
            }
        }
    }

    /// Records a scope the first time it is met, with the names of its parameters
    /// when it has a parameter list; a scope met again is left as it was.
    pub fn insert_scope(&mut self, name: &str, params: Option<Vec<String>>)
        requires
            old(self).wf(),
        ensures
            final(self).wf(),
            final(self).scopes_seen() == old(self).scopes_seen().insert(name@),
            final(self).params() == (if !old(self).scopes_seen().contains(name@) && params is Some {
                old(self).params().insert(name@, params.unwrap()@.map_values(|s: String| s@))
            } else {
                old(self).params()
            }),
            final(self).code() == old(self).code(),
            final(self).frames_view() == old(self).frames_view(),
            final(self).param_slot_map() == old(self).param_slot_map(),
    {
        if self.scope_names.contains_key(name) {
            assert(old(self).scopes_seen().insert(name@) =~= old(self).scopes_seen());
            return;
        }
        self.scope_names.insert(String::from_str(name), ());
        match params {
            Some(p) => {
                self.param_names.insert(String::from_str(name), p);
                assert(self.params() =~= old(self).params().insert(name@, p@.map_values(|s: String| s@)));
            },
            None => {},
        }
    }

    /// Gives the parameters of `scope_name` their slots, once per scope: each
    /// parameter name gets the slot a frame gives it, else a new local.
    pub fn allocate_param_slots(&mut self, scope_name: &str)
        requires
            old(self).wf(),
            old(self).frames_view().len() > 0,
            old(self).locals_next() + (if old(self).params().dom().contains(scope_name@) {
                old(self).params()[scope_name@].len() } else { 0 }) <= usize::MAX,
        ensures
            final(self).wf(),
            final(self).code() == old(self).code(),
            final(self).frames_view().len() == old(self).frames_view().len(),
            final(self).frames_view().drop_last() == old(self).frames_view().drop_last(),
            old(self).param_slot_map().dom().contains(scope_name@) ==> final(self).frames_view() == old(self).frames_view()
                && final(self).param_slot_map() == old(self).param_slot_map()
                && final(self).locals_next() == old(self).locals_next(),
            !old(self).param_slot_map().dom().contains(scope_name@) ==> {
                let names = if old(self).params().dom().contains(scope_name@) {
                    old(self).params()[scope_name@] } else { Seq::<Seq<char>>::empty() };
                &&& final(self).param_slot_map().dom() == old(self).param_slot_map().dom().insert(scope_name@)
                &&& forall|k: Seq<char>| k != scope_name@ && #[trigger] old(self).param_slot_map().dom().contains(k)
                    ==> final(self).param_slot_map()[k] == old(self).param_slot_map()[k]
                &&& final(self).param_slot_map()[scope_name@].len() == names.len()
                &&& forall|j: int| 0 <= j < names.len() ==> frame_lookup(final(self).frames_view(), #[trigger] names[j])
                    == Some(final(self).param_slot_map()[scope_name@][j])
                &&& (final(self).frames_view(), final(self).locals_next(), final(self).param_slot_map()[scope_name@])
                    == ensure_locals(old(self).frames_view(), old(self).locals_next(), names)
            },
            final(self).scope() == old(self).scope(),
            final(self).members() == old(self).members(),
            final(self).called() == old(self).called(),
            final(self).params() == old(self).params(),
            final(self).saved_locals() == old(self).saved_locals(),
            final(self).temps_next() == old(self).temps_next(),
    {
        if self.param_slots.contains_key(scope_name) {
            return;
        }
        let mut names: Vec<String> = Vec::new();
        match self.param_names.get(scope_name) {
            Some(ns) => {
                let mut i: usize = 0;
                while i < ns.len()
                    invariant
                        i <= ns@.len(),
                        names@.len() == i,
                        names@.map_values(|s: String| s@) == ns@.subrange(0, i as int).map_values(|s: String| s@),
                    decreases ns@.len() - i,
                {
                    let c = ns[i].clone();
                    assert(c@ == ns@[i as int]@);
                    let ghost pre = names@;
                    names.push(c);
                    assert forall|q: int| 0 <= q <= i implies string_views(names@)[q]
                        == #[trigger] string_views(ns@.subrange(0, i + 1))[q] by {
                        if q < i {
                            assert(names@[q] == pre[q]);
                            assert(pre.map_values(|s: String| s@)[q] == ns@.subrange(0, i as int).map_values(|s: String| s@)[q]);
                        }
                    }
                    assert(string_views(names@) =~= string_views(ns@.subrange(0, i + 1)));
                    i += 1;
                }
                assert(ns@.subrange(0, i as int) =~= ns@);
            },
            None => {},
        }
        let ghost nv = names@.map_values(|s: String| s@);
        assert(nv == (if old(self).params().dom().contains(scope_name@) {
            old(self).params()[scope_name@] } else { Seq::<Seq<char>>::empty() }));
        let mut slots: Vec<Slot> = Vec::new();
        let mut i: usize = 0;
        while i < names.len()
            invariant
                self.wf(),
                i <= names@.len(),
                nv == names@.map_values(|s: String| s@),
                slots@.len() == i,
                self.frames_view().len() == old(self).frames_view().len(),
                self.frames_view().len() > 0,
                self.frames_view().drop_last() == old(self).frames_view().drop_last(),
                self.locals_next() <= old(self).locals_next() + i,
                old(self).locals_next() + names@.len() <= usize::MAX,
                forall|j: int| 0 <= j < i ==> frame_lookup(self.frames_view(), #[trigger] nv[j]) == Some(slots@[j]),
                (self.frames_view(), self.locals_next(), slots@)
                    == ensure_locals(old(self).frames_view(), old(self).locals_next(), nv.subrange(0, i as int)),
                self.code() == old(self).code(),
                self.scope() == old(self).scope(),
                self.members() == old(self).members(),
                self.called() == old(self).called(),
                self.params() == old(self).params(),
                self.param_slot_map() == old(self).param_slot_map(),
                self.saved_locals() == old(self).saved_locals(),
                self.temps_next() == old(self).temps_next(),
            decreases names@.len() - i,
        {
            let ghost before = self.frames_view();
            let s = self.ensure_local(names[i].as_str());
            proof {
                assert(nv.subrange(0, i + 1).drop_last() =~= nv.subrange(0, i as int));
                assert(nv[i as int] == names@[i as int]@);
                assert(self.frames_view().drop_last() =~= before.drop_last());
                assert forall|j: int| 0 <= j < i + 1 implies frame_lookup(self.frames_view(), #[trigger] nv[j]) == Some(slots@.push(s)[j]) by {
                    if j < i && nv[j] != nv[i as int] && self.frames_view() != before {
                        lemma_lookup_after_insert(before, nv[j], names@[i as int]@, s);
                    }
                }
            }
            slots.push(s);
            i += 1;
        }
        assert(nv.subrange(0, i as int) =~= nv);
        self.param_slots.insert(String::from_str(scope_name), slots);
        proof {
            assert(self.param_slot_map().dom() =~= old(self).param_slot_map().dom().insert(scope_name@));
        }
    }

    /// The number of parameters recorded for `scope`.
    fn param_count(&self, scope: &str) -> (r: usize)
        requires
            self.wf(),
        ensures
            r == (if self.params().dom().contains(scope@) { self.params()[scope@].len() } else { 0 }),
    {
        match self.param_names.get(scope) {
            Some(v) => v.len(),
            None => 0,
        }
    }

    /// Enters the region of scope `name`: it becomes the current scope, nothing is
    /// initialized or called yet, the labels `func.name` and `scope.name` are
    /// emitted, a frame that numbers locals from 0 is opened and the parameters get
    /// their slots.
    pub fn begin_scope_region(&mut self, name: &str)
        requires
            old(self).wf(),
        ensures
            final(self).wf(),
            final(self).scope() == Some(name@),
            final(self).members() == Map::<Seq<char>, Set<Seq<char>>>::empty(),
            final(self).called() == Set::<Seq<char>>::empty(),
            final(self).code().len() == old(self).code().len() + 2,
            final(self).code().subrange(0, old(self).code().len() as int) == old(self).code(),
            final(self).code()[old(self).code().len() as int] matches Op::Label { name: l } && l@ == "func."@ + name@,
            final(self).code()[old(self).code().len() as int + 1] matches Op::Label { name: l } && l@ == "scope."@ + name@,
            final(self).saved_locals() == old(self).saved_locals().push(old(self).locals_next()),
            final(self).frames_view().len() == old(self).frames_view().len() + 1,
            final(self).frames_view().drop_last() == old(self).frames_view(),
            final(self).params() == old(self).params(),
            final(self).param_slot_map().dom() == old(self).param_slot_map().dom().insert(name@),
    {
        self.current_scope = Some(String::from_str(name));
        self.initialized_members.clear();
        self.called_scopes.clear();
        let mut l1 = String::from_str("func.");
        push_str(&mut l1, name);
        self.emit(Op::Label { name: l1 });
        let mut l2 = String::from_str("scope.");
        push_str(&mut l2, name);
        self.emit(Op::Label { name: l2 });
        proof {
            assert(self.members() =~= Map::<Seq<char>, Set<Seq<char>>>::empty());
        }
        self.push_frame(true);
        let count = self.param_count(name);
        let ghost mid = *self;
        self.allocate_param_slots(name);
        proof {
            assert(self.code().subrange(0, old(self).code().len() as int) =~= old(self).code());
            if mid.param_slot_map().dom().contains(name@) {
                assert(self.param_slot_map().dom() =~= old(self).param_slot_map().dom().insert(name@));
            }
        }
    }

    /// Leaves the region of scope `name`: its frame is closed and a return is
    /// emitted, of the slot of `out` when the region initialized that member.
    pub fn end_scope_region(&mut self, name: &str)
        requires
            old(self).wf(),
        ensures
            final(self).wf(),
            final(self).scope() is None,
            final(self).code() == old(self).code().push(Op::Return {
                value: if old(self).members().dom().contains(name@) && old(self).members()[name@].contains("out"@) {
                    frame_lookup(old(self).frames_view(), "out"@)
                } else {
                    None
                },
            }),
            old(self).frames_view().len() > 0 ==> final(self).frames_view() == old(self).frames_view().drop_last(),
            old(self).saved_locals().len() > 0 ==> final(self).locals_next() == old(self).saved_locals().last(),
            final(self).members() == old(self).members(),
            final(self).called() == old(self).called(),
    {
        let ret_slot = if self.is_member_initialized(name, "out") {
            self.lookup_local("out")
        } else {
            None
        };
        self.pop_frame();
        self.emit(Op::Return { value: ret_slot });
        self.current_scope = None;
    }

    /// Records the scope a workspace, project or stage declares, with the
    /// identifiers among a stage's arguments as its parameter names.
    pub fn record_scope(&mut self, node: &AstNode)
        requires
            old(self).wf(),
        ensures
            final(self).wf(),
            final(self).code() == old(self).code(),
            final(self).frames_view() == old(self).frames_view(),
            match node.kind {
                AstNodeKind::Workspace { name, .. } | AstNodeKind::Project { name, .. } =>
                    final(self).scopes_seen() == old(self).scopes_seen().insert(name@)
                    && final(self).params() == old(self).params(),
                AstNodeKind::Stage { name, args, .. } =>
                    final(self).scopes_seen() == old(self).scopes_seen().insert(name@)
                    && final(self).params() == (if old(self).scopes_seen().contains(name@) { old(self).params() }
                        else { old(self).params().insert(name@, arg_identifiers(args)) }),
                _ => final(self).scopes_seen() == old(self).scopes_seen() && final(self).params() == old(self).params(),
            },
    {
        match &node.kind {
            AstNodeKind::Workspace { name, .. } => self.insert_scope(name.as_str(), None),
            AstNodeKind::Project { name, .. } => self.insert_scope(name.as_str(), None),
            AstNodeKind::Stage { name, args, .. } => {
                let mut ids: Vec<String> = Vec::new();
                match args {
                    Some(a) => match &a.kind {
                        AstNodeKind::Arguments { args: ps } => {
                            let mut i: usize = 0;
                            while i < ps.len()
                                invariant
                                    i <= ps@.len(),
                                    string_views(ids@) == identifiers(ps@.subrange(0, i as int)),
                                decreases ps@.len() - i,
                            {
                                let ghost pre = ps@.subrange(0, i as int + 1);
                                assert(pre.drop_last() =~= ps@.subrange(0, i as int));
                                match &ps[i].kind {
                                    AstNodeKind::Identifier { name: n } => {
                                        let c = n.clone();
                                        ids.push(c);
                                        assert(string_views(ids@) =~= identifiers(pre));
                                    },
                                    _ => {},
                                }
                                i += 1;
                            }
                            assert(ps@.subrange(0, i as int) =~= ps@);
                        },
                        _ => {},
                    },
                    None => {},
                }
                assert(string_views(ids@) == arg_identifiers(*args));
                self.insert_scope(name.as_str(), Some(ids));
            },
            _ => {},
        }
    }

    /// Whether the scope `name` was called in the current region.
    pub fn has_called_scope(&self, name: &str) -> (r: bool)
        requires
            self.wf(),
        ensures
            r == self.called().contains(name@),
    {
        self.called_scopes.contains_key(name)
    }

    /// Notes a call of the scope `name` in the current region.
    pub fn note_scope_call(&mut self, name: &str)
        requires
            old(self).wf(),
        ensures
            final(self).wf(),
            final(self).called() == old(self).called().insert(name@),
            final(self).code() == old(self).code(),
            final(self).frames_view() == old(self).frames_view(),
            final(self).members() == old(self).members(),
    {
        self.called_scopes.insert(String::from_str(name), ());
    }

    /// Whether `member` of `scope` was initialized in the current region.
    pub fn is_member_initialized(&self, scope: &str, member: &str) -> (r: bool)
        requires
            self.wf(),
        ensures
            r == (self.members().dom().contains(scope@) && self.members()[scope@].contains(member@)),
    {
        match self.initialized_members.get(scope) {
            Some(s) => s.contains_key(member),
            None => false,
        }
    }

    /// Notes that `member` of `scope` was initialized.
    pub fn note_member_init(&mut self, scope: &str, member: &str)
        requires
            old(self).wf(),
        ensures
            final(self).wf(),
            final(self).members() == old(self).members().insert(scope@,
                (if old(self).members().dom().contains(scope@) { old(self).members()[scope@] }
                else { Set::<Seq<char>>::empty() }).insert(member@)),
            final(self).code() == old(self).code(),
            final(self).frames_view() == old(self).frames_view(),
            final(self).called() == old(self).called(),
    {
        let mut set: StrMap<()> = match self.initialized_members.remove(scope) {
            Some(m) => m,
            None => StrMap::new(),
        };
        set.insert(String::from_str(member), ());
        self.initialized_members.insert(String::from_str(scope), set);
        proof {
            assert(self.members() =~= old(self).members().insert(scope@,
                (if old(self).members().dom().contains(scope@) { old(self).members()[scope@] }
                else { Set::<Seq<char>>::empty() }).insert(member@)));
        }
    }
}

} // verus!
