//! Constants, instructions, functions and modules of the stack-based back end.
use vstd::prelude::*;
use crate::location::Span;
use crate::strmap::StrMap;
use crate::text::str_eq;
use vstd::string::StrSliceExecFns;

verus! {

/// A constant of the constant pool.
#[derive(Debug)]
pub enum IRConst {
    Int(i64),
    Str(String),
    Bool(bool),
    Array(Vec<IRConst>),
    Ident(String),
    Command(String),
    Null,
}

/// A jump target.
pub type Label = u32;

/// A stack instruction.
#[derive(Debug, Clone, Copy, PartialEq, Eq, Structural)]
pub enum IROpKind {
    /// Push a constant of the pool (by index).
    LoadConst(u32),
    /// Push a variable (by symbol id).
    LoadVar(u32),
    /// Pop into a variable (by symbol id).
    StoreVar(u32),
    /// Pop into a global (by symbol id).
    StoreGlobal(u32),
    Add,
    Sub,
    Mul,
    Div,
    Concat,
    Jump(Label),
    JumpIfFalse(Label),
    /// Call a function (by id) with a number of arguments.
    Call(u32, u8),
    Return,
    Say,
    Read,
    Write,
    NoOp,
}

/// What a constant denotes.
pub enum ConstView {
    Int(i64),
    Str(Seq<char>),
    Bool(bool),
    Array(Seq<ConstView>),
    Ident(Seq<char>),
    Command(Seq<char>),
    Null,
}

/// What a constant denotes.
pub open spec fn const_view(c: IRConst) -> ConstView
    decreases c, 0nat,
{
    match c {
        IRConst::Int(i) => ConstView::Int(i),
        IRConst::Str(s) => ConstView::Str(s@),
        IRConst::Bool(b) => ConstView::Bool(b),
        IRConst::Array(a) => ConstView::Array(consts_view(a@)),
        IRConst::Ident(s) => ConstView::Ident(s@),
        IRConst::Command(s) => ConstView::Command(s@),
        IRConst::Null => ConstView::Null,
    }
}

/// What a list of constants denotes.
pub open spec fn consts_view(s: Seq<IRConst>) -> Seq<ConstView>
    decreases s, s.len(),
{
    if s.len() == 0 { Seq::empty() } else { seq![const_view(s[0])] + consts_view(s.drop_first()) }
}

/// The number of constants in a constant (an array counts with its elements).
pub open spec fn const_size(c: IRConst) -> nat
    decreases c, 0nat,
{
    match c {
        IRConst::Array(a) => 1 + consts_size(a@),
        _ => 1,
    }
}

/// The number of constants in a list of constants.
pub open spec fn consts_size(s: Seq<IRConst>) -> nat
    decreases s, s.len(),
{
    if s.len() == 0 { 0 } else { const_size(s[0]) + consts_size(s.drop_first()) }
}

proof fn lemma_consts_size(s: Seq<IRConst>, i: int)
    requires
        0 <= i < s.len(),
    ensures
        const_size(s[i]) <= consts_size(s),
    decreases s.len(),
{
    if i > 0 {
        lemma_consts_size(s.drop_first(), i - 1);
    }
}

proof fn lemma_consts_view_index(s: Seq<IRConst>, i: int)
    requires
        0 <= i < s.len(),
    ensures
        consts_view(s).len() == s.len(),
        consts_view(s)[i] == const_view(s[i]),
    decreases s.len(),
{
    lemma_consts_view_len(s);
    if i > 0 {
        lemma_consts_view_index(s.drop_first(), i - 1);
    }
}

proof fn lemma_consts_view_len(s: Seq<IRConst>)
    ensures
        consts_view(s).len() == s.len(),
    decreases s.len(),
{
    if s.len() > 0 {
        lemma_consts_view_len(s.drop_first());
    }
}

impl IRConst {
    /// Whether two constants are equal (same variant, equal contents).
    pub fn equals(&self, other: &IRConst) -> (r: bool)
        ensures
            r == (const_view(*self) == const_view(*other)),
        decreases const_size(*self),
    {
        match (self, other) {
            (IRConst::Int(x), IRConst::Int(y)) => *x == *y,
            (IRConst::Str(x), IRConst::Str(y)) => str_eq(x.as_str(), y.as_str()),
            (IRConst::Bool(x), IRConst::Bool(y)) => *x == *y,
            (IRConst::Ident(x), IRConst::Ident(y)) => str_eq(x.as_str(), y.as_str()),
            (IRConst::Command(x), IRConst::Command(y)) => str_eq(x.as_str(), y.as_str()),
            (IRConst::Null, IRConst::Null) => true,
            (IRConst::Array(x), IRConst::Array(y)) => {
                proof {
                    lemma_consts_view_len(x@);
                    lemma_consts_view_len(y@);
                }
                if x.len() != y.len() {
                    return false;
                }
                let mut i: usize = 0;
                while i < x.len()
                    invariant
                        i <= x@.len(),
                        x@.len() == y@.len(),
                        consts_view(x@).len() == x@.len(),
                        consts_view(y@).len() == y@.len(),
                        *self == IRConst::Array(*x),
                        *other == IRConst::Array(*y),
                        forall|j: int| 0 <= j < i ==> consts_view(x@)[j] == consts_view(y@)[j],
                    decreases x@.len() - i,
                {
                    proof {
                        lemma_consts_size(x@, i as int);
                        lemma_consts_view_index(x@, i as int);
                        lemma_consts_view_index(y@, i as int);
                    }
                    if !x[i].equals(&y[i]) {
                        assert(consts_view(x@)[i as int] != consts_view(y@)[i as int]);
                        return false;
                    }
                    i += 1;
                }
                assert(consts_view(x@) =~= consts_view(y@));
                true
            },
            _ => false,
        }
    }
}

/// A stack instruction and the source it came from.
#[derive(Debug)]
pub struct IROp {
    pub kind: IROpKind,
    pub span: Option<Span>,
}

/// A labelled run of instructions and the blocks that may follow it.
#[derive(Debug)]
pub struct BasicBlock {
    pub label: Label,
    pub ops: Vec<IROp>,
    pub next: Vec<Label>,
}

/// A function: its full name, parameter symbol ids and blocks.
#[derive(Debug)]
pub struct IRFunction {
    pub name: String,
    pub params: Vec<u32>,
    pub blocks: Vec<BasicBlock>,
}

/// The name of a stage or task function without its `stage:init:` or `task:init:`
/// prefix, for the functions that have one.
pub open spec fn plain_name(name: Seq<char>) -> Option<Seq<char>> {
    if name.len() >= 11 && name.subrange(0, 11) == "stage:init:"@ {
        Some(name.subrange(11, name.len() as int))
    } else if name.len() >= 10 && name.subrange(0, 10) == "task:init:"@ {
        Some(name.subrange(10, name.len() as int))
    } else {
        None
    }
}

/// A module of the stack back end: globals, constants and functions, with the
/// functions indexed by full and by plain name.
#[derive(Debug)]
pub struct ModuleIR {
    pub globals: Vec<String>,
    pub const_pool: Vec<IRConst>,
    pub functions: Vec<IRFunction>,
    pub func_index: StrMap<u32>,
    pub plain_index: StrMap<u32>,
}

/// The first position of a constant equal to `c`.
pub open spec fn const_position(pool: Seq<IRConst>, c: ConstView) -> Option<int> {
    if exists|i: int| 0 <= i < pool.len() && const_view(pool[i]) == c {
        Some(choose|i: int| 0 <= i < pool.len() && const_view(pool[i]) == c
            && forall|j: int| 0 <= j < i ==> const_view(pool[j]) != c)
    } else {
        None
    }
}

/// The first position of a global named `name`.
pub open spec fn global_position(globals: Seq<String>, name: Seq<char>) -> Option<int> {
    if exists|i: int| 0 <= i < globals.len() && globals[i]@ == name {
        Some(choose|i: int| 0 <= i < globals.len() && globals[i]@ == name
            && forall|j: int| 0 <= j < i ==> globals[j]@ != name)
    } else {
        None
    }
}

impl ModuleIR {
    /// The function ids by full name.
    pub closed spec fn func_ids(&self) -> Map<Seq<char>, u32> { self.func_index.view() }

    /// The function ids by plain stage or task name.
    pub closed spec fn plain_ids(&self) -> Map<Seq<char>, u32> { self.plain_index.view() }

    /// The indexes have distinct keys.
    pub closed spec fn wf(&self) -> bool { self.func_index.wf() && self.plain_index.wf() }

    /// An empty module.
    pub fn new() -> (r: Self)
        ensures
            r.wf(),
            r.globals@.len() == 0,
            r.const_pool@.len() == 0,
            r.functions@.len() == 0,
            r.func_ids() == Map::<Seq<char>, u32>::empty(),
            r.plain_ids() == Map::<Seq<char>, u32>::empty(),
    {
        ModuleIR {
            globals: Vec::new(),
            const_pool: Vec::new(),
            functions: Vec::new(),
            func_index: StrMap::new(),
            plain_index: StrMap::new(),
        }
    }

    /// The index of the constant in the pool: of the first equal one, else of `c`
    /// added at the end (indices are kept as `u32`, wrapping past its range).
    pub fn intern_const(&mut self, c: IRConst) -> (r: u32)
        ensures
            match const_position(old(self).const_pool@, const_view(c)) {
                Some(i) => r == i as u32 && final(self).const_pool@ == old(self).const_pool@,
                None => r == old(self).const_pool@.len() as u32
                    && final(self).const_pool@ == old(self).const_pool@.push(c),
            },
            final(self).globals@ == old(self).globals@,
            final(self).functions@ == old(self).functions@,
            final(self).func_ids() == old(self).func_ids(),
            final(self).plain_ids() == old(self).plain_ids(),
            final(self).wf() == old(self).wf(),
    {
        let mut i: usize = 0;
        while i < self.const_pool.len()
            invariant
                i <= self.const_pool@.len(),
                forall|j: int| 0 <= j < i ==> const_view(self.const_pool@[j]) != const_view(c),
            decreases self.const_pool@.len() - i,
        {
            if self.const_pool[i].equals(&c) {
                proof {
                    let p = choose|p: int| 0 <= p < self.const_pool@.len() && const_view(self.const_pool@[p]) == const_view(c)
                        && forall|j: int| 0 <= j < p ==> const_view(self.const_pool@[j]) != const_view(c);
                    assert(0 <= i && const_view(self.const_pool@[i as int]) == const_view(c)
                        && forall|j: int| 0 <= j < i ==> const_view(self.const_pool@[j]) != const_view(c));
                    if p < i { assert(const_view(self.const_pool@[p]) != const_view(c)); }
                    if p > i { assert(const_view(self.const_pool@[i as int]) != const_view(c)); }
                }
                return i as u32;
            }
            i += 1;
        }
        let idx = self.const_pool.len() as u32;
        self.const_pool.push(c);
        idx
    }

    /// The index of the global `name`: of its first entry, else of `name` added
    /// at the end (indices wrap past the range of `u32`).
    pub fn intern_global(&mut self, name: String) -> (r: u32)
        ensures
            match global_position(old(self).globals@, name@) {
                Some(i) => r == i as u32 && final(self).globals@ == old(self).globals@,
                None => r == old(self).globals@.len() as u32
                    && final(self).globals@ == old(self).globals@.push(name),
            },
            final(self).const_pool@ == old(self).const_pool@,
            final(self).functions@ == old(self).functions@,
            final(self).func_ids() == old(self).func_ids(),
            final(self).plain_ids() == old(self).plain_ids(),
            final(self).wf() == old(self).wf(),
    {
        let mut i: usize = 0;
        while i < self.globals.len()
            invariant
                i <= self.globals@.len(),
                forall|j: int| 0 <= j < i ==> self.globals@[j]@ != name@,
            decreases self.globals@.len() - i,
        {
            if str_eq(self.globals[i].as_str(), name.as_str()) {
                proof {
                    let p = choose|p: int| 0 <= p < self.globals@.len() && self.globals@[p]@ == name@
                        && forall|j: int| 0 <= j < p ==> self.globals@[j]@ != name@;
                    assert(0 <= i && self.globals@[i as int]@ == name@
                        && forall|j: int| 0 <= j < i ==> self.globals@[j]@ != name@);
                    if p < i { assert(self.globals@[p]@ != name@); }
                    if p > i { assert(self.globals@[i as int]@ != name@); }
                }
                return i as u32;
            }
            i += 1;
        }
        let idx = self.globals.len() as u32;
        self.globals.push(name);
        idx
    }

    /// Adds a function and returns its id (its position, as `u32`); it is indexed
    /// by its full name and, for `stage:init:` and `task:init:` functions, by its
    /// plain name.
    pub fn add_function(&mut self, f: IRFunction) -> (id: u32)
        requires
            old(self).wf(),
        ensures
            final(self).wf(),
            id == old(self).functions@.len() as u32,
            final(self).functions@ == old(self).functions@.push(f),
            final(self).func_ids() == old(self).func_ids().insert(f.name@, id),
            final(self).plain_ids() == match plain_name(f.name@) {
                Some(p) => old(self).plain_ids().insert(p, id),
                None => old(self).plain_ids(),
            },
            final(self).globals@ == old(self).globals@,
            final(self).const_pool@ == old(self).const_pool@,
    {
        let id = self.functions.len() as u32;
        self.func_index.insert(f.name.clone(), id);
        let rest = strip_plain(f.name.as_str());
        match rest {
            Some(p) => { self.plain_index.insert(p, id); },
            None => {},
        }
        self.functions.push(f);
        id
    }

    /// The function id of a plain stage or task name.
    pub fn get_plain_func(&self, name: &str) -> (r: Option<u32>)
        requires
            self.wf(),
        ensures
            match r {
                Some(id) => self.plain_ids().dom().contains(name@) && self.plain_ids()[name@] == id,
                None => !self.plain_ids().dom().contains(name@),
            },
    {
        match self.plain_index.get(name) {
            Some(id) => Some(*id),
            None => None,
        }
    }
}

/// `name` without its `stage:init:` or `task:init:` prefix, if it has one.
fn strip_plain(name: &str) -> (r: Option<String>)
    ensures
        match plain_name(name@) {
            Some(p) => r matches Some(s) && s@ == p,
            None => r is None,
        },
{
    proof {
        reveal_strlit("stage:init:");
        reveal_strlit("task:init:");
    }
    let stage = strip_prefix_chars(name, "stage:init:");
    match stage {
        Some(s) => return Some(s),
        None => {},
    }
    strip_prefix_chars(name, "task:init:")
}

/// `s` without the prefix `p`, if it starts with it.
fn strip_prefix_chars(s: &str, p: &str) -> (r: Option<String>)
    ensures
        match r {
            Some(x) => s@.len() >= p@.len() && s@.subrange(0, p@.len() as int) == p@
                && x@ == s@.subrange(p@.len() as int, s@.len() as int),
            None => !(s@.len() >= p@.len() && s@.subrange(0, p@.len() as int) == p@),
        },
{
    let n = s.unicode_len();
    let m = p.unicode_len();
    if n < m {
        return None;
    }
    let mut i: usize = 0;
    while i < m
        invariant
            i <= m,
            m <= n,
            n == s@.len(),
            m == p@.len(),
            forall|j: int| 0 <= j < i ==> s@[j] == p@[j],
        decreases m - i,
    {
        if s.get_char(i) != p.get_char(i) {
            assert(s@.subrange(0, m as int)[i as int] != p@[i as int]);
            return None;
        }
        i += 1;
    }
    assert(s@.subrange(0, m as int) =~= p@);
    let mut out = String::new();
    let mut k = m;
    while k < n
        invariant
            m <= k <= n,
            n == s@.len(),
            out@ == s@.subrange(m as int, k as int),
        decreases n - k,
    {
        crate::text::push_char(&mut out, s.get_char(k));
        assert(out@ =~= s@.subrange(m as int, k + 1));
        k += 1;
    }
    Some(out)
}

} // verus!
