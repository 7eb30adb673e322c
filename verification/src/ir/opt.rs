//! Optimization of the register-based IR: constant folding of registers and
//! locals, and removal of jumps to the next instruction.
use vstd::prelude::*;
use crate::ir::irop::{IROp, Value, is_branch, branch_target, is_label, branches_land_on_labels, calls_land_on_labels};
use crate::ir::valview::{ValueView, value_view, view_eq};
use crate::ir::irmod::IrModule;
use crate::text::{push_str, seq_char_lt, str_lt};

verus! {

/// The binary operators of the register-based IR.
#[derive(Debug, Clone, Copy, PartialEq, Eq, Structural)]
pub enum RegBin {
    Add,
    Sub,
    Mul,
    Div,
    Mod,
    Eq,
    Neq,
    Lt,
    Lte,
    Gt,
    Gte,
    And,
    Or,
}

/// The operator, destination and sources of a binary instruction.
pub open spec fn reg_bin_parts(op: IROp) -> Option<(RegBin, usize, usize, usize)> {
    match op {
        IROp::Add { dest, src1, src2 } => Some((RegBin::Add, dest, src1, src2)),
        IROp::Sub { dest, src1, src2 } => Some((RegBin::Sub, dest, src1, src2)),
        IROp::Mul { dest, src1, src2 } => Some((RegBin::Mul, dest, src1, src2)),
        IROp::Div { dest, src1, src2 } => Some((RegBin::Div, dest, src1, src2)),
        IROp::Mod { dest, src1, src2 } => Some((RegBin::Mod, dest, src1, src2)),
        IROp::Eq { dest, src1, src2 } => Some((RegBin::Eq, dest, src1, src2)),
        IROp::Neq { dest, src1, src2 } => Some((RegBin::Neq, dest, src1, src2)),
        IROp::Lt { dest, src1, src2 } => Some((RegBin::Lt, dest, src1, src2)),
        IROp::Lte { dest, src1, src2 } => Some((RegBin::Lte, dest, src1, src2)),
        IROp::Gt { dest, src1, src2 } => Some((RegBin::Gt, dest, src1, src2)),
        IROp::Gte { dest, src1, src2 } => Some((RegBin::Gte, dest, src1, src2)),
        IROp::And { dest, src1, src2 } => Some((RegBin::And, dest, src1, src2)),
        IROp::Or { dest, src1, src2 } => Some((RegBin::Or, dest, src1, src2)),
        _ => None,
    }
}

fn reg_bin_parts_of(op: &IROp) -> (r: Option<(RegBin, usize, usize, usize)>)
    ensures
        r == reg_bin_parts(*op),
{
    match op {
        IROp::Add { dest, src1, src2 } => Some((RegBin::Add, *dest, *src1, *src2)),
        IROp::Sub { dest, src1, src2 } => Some((RegBin::Sub, *dest, *src1, *src2)),
        IROp::Mul { dest, src1, src2 } => Some((RegBin::Mul, *dest, *src1, *src2)),
        IROp::Div { dest, src1, src2 } => Some((RegBin::Div, *dest, *src1, *src2)),
        IROp::Mod { dest, src1, src2 } => Some((RegBin::Mod, *dest, *src1, *src2)),
        IROp::Eq { dest, src1, src2 } => Some((RegBin::Eq, *dest, *src1, *src2)),
        IROp::Neq { dest, src1, src2 } => Some((RegBin::Neq, *dest, *src1, *src2)),
        IROp::Lt { dest, src1, src2 } => Some((RegBin::Lt, *dest, *src1, *src2)),
        IROp::Lte { dest, src1, src2 } => Some((RegBin::Lte, *dest, *src1, *src2)),
        IROp::Gt { dest, src1, src2 } => Some((RegBin::Gt, *dest, *src1, *src2)),
        IROp::Gte { dest, src1, src2 } => Some((RegBin::Gte, *dest, *src1, *src2)),
        IROp::And { dest, src1, src2 } => Some((RegBin::And, *dest, *src1, *src2)),
        IROp::Or { dest, src1, src2 } => Some((RegBin::Or, *dest, *src1, *src2)),
        _ => None,
    }
}

/// An integer result as a value.
pub open spec fn int_value(o: Option<i64>) -> Option<ValueView> {
    match o {
        Some(v) => Some(ValueView::Int(v)),
        None => None,
    }
}

/// What a binary operator gives on two constants: integer arithmetic that neither
/// overflows nor divides by zero, string concatenation, equality of any two
/// values, order of two integers or two strings (by code points), and the logic
/// of two booleans; `None` for anything else (floats among it).
pub open spec fn binop_value(k: RegBin, a: ValueView, b: ValueView) -> Option<ValueView> {
    match k {
        RegBin::Add => match (a, b) {
            (ValueView::Int(x), ValueView::Int(y)) => int_value(x.checked_add(y)),
            (ValueView::Str(x), ValueView::Str(y)) => Some(ValueView::Str(x + y)),
            _ => None,
        },
        RegBin::Sub => match (a, b) {
            (ValueView::Int(x), ValueView::Int(y)) => int_value(x.checked_sub(y)),
            _ => None,
        },
        RegBin::Mul => match (a, b) {
            (ValueView::Int(x), ValueView::Int(y)) => int_value(x.checked_mul(y)),
            _ => None,
        },
        RegBin::Div => match (a, b) {
            (ValueView::Int(x), ValueView::Int(y)) => int_value(x.checked_div(y)),
            _ => None,
        },
        RegBin::Mod => match (a, b) {
            (ValueView::Int(x), ValueView::Int(y)) => int_value(x.checked_rem(y)),
            _ => None,
        },
        RegBin::Eq => Some(ValueView::Bool(view_eq(a, b))),
        RegBin::Neq => Some(ValueView::Bool(!view_eq(a, b))),
        RegBin::Lt => match (a, b) {
            (ValueView::Int(x), ValueView::Int(y)) => Some(ValueView::Bool(x < y)),
            (ValueView::Str(x), ValueView::Str(y)) => Some(ValueView::Bool(seq_char_lt(x, y))),
            _ => None,
        },
        RegBin::Lte => match (a, b) {
            (ValueView::Int(x), ValueView::Int(y)) => Some(ValueView::Bool(x <= y)),
            (ValueView::Str(x), ValueView::Str(y)) => Some(ValueView::Bool(seq_char_lt(x, y) || x == y)),
            _ => None,
        },
        RegBin::Gt => match (a, b) {
            (ValueView::Int(x), ValueView::Int(y)) => Some(ValueView::Bool(x > y)),
            (ValueView::Str(x), ValueView::Str(y)) => Some(ValueView::Bool(seq_char_lt(y, x))),
            _ => None,
        },
        RegBin::Gte => match (a, b) {
            (ValueView::Int(x), ValueView::Int(y)) => Some(ValueView::Bool(x >= y)),
            (ValueView::Str(x), ValueView::Str(y)) => Some(ValueView::Bool(seq_char_lt(y, x) || x == y)),
            _ => None,
        },
        RegBin::And => match (a, b) {
            (ValueView::Bool(x), ValueView::Bool(y)) => Some(ValueView::Bool(x && y)),
            _ => None,
        },
        RegBin::Or => match (a, b) {
            (ValueView::Bool(x), ValueView::Bool(y)) => Some(ValueView::Bool(x || y)),
            _ => None,
        },
    }
}

/// An integer value when `x` fits in an `i64`.
pub open spec fn int_fit(x: int) -> Option<ValueView> {
    if i64::MIN <= x <= i64::MAX { Some(ValueView::Int(x as i64)) } else { None }
}

/// Law: on two integers, the first operand `x` and the second `y`, a binary
/// instruction folds to the mathematical result: `x + y`, `x - y`, `x * y` when
/// they fit; floor quotient and remainder for non-negative `x` and positive `y`,
/// nothing for a zero divisor; and the truth of `x == y`, `x != y`, `x < y`,
/// `x <= y`, `x > y`, `x >= y`, where `<=` is `<` or `==` and `>` is `<` swapped.
pub proof fn law_binop_ints(x: i64, y: i64)
    ensures
        binop_value(RegBin::Add, ValueView::Int(x), ValueView::Int(y)) == int_fit(x + y),
        binop_value(RegBin::Sub, ValueView::Int(x), ValueView::Int(y)) == int_fit(x - y),
        binop_value(RegBin::Mul, ValueView::Int(x), ValueView::Int(y)) == int_fit(x * y),
        binop_value(RegBin::Div, ValueView::Int(x), ValueView::Int(0)) is None,
        binop_value(RegBin::Mod, ValueView::Int(x), ValueView::Int(0)) is None,
        0 <= x && 0 < y ==> binop_value(RegBin::Div, ValueView::Int(x), ValueView::Int(y)) == int_fit(x as int / y as int),
        0 <= x && 0 < y ==> binop_value(RegBin::Mod, ValueView::Int(x), ValueView::Int(y)) == int_fit(x as int % y as int),
        binop_value(RegBin::Eq, ValueView::Int(x), ValueView::Int(y)) == Some(ValueView::Bool(x == y)),
        binop_value(RegBin::Neq, ValueView::Int(x), ValueView::Int(y)) == Some(ValueView::Bool(x != y)),
        binop_value(RegBin::Lt, ValueView::Int(x), ValueView::Int(y)) == Some(ValueView::Bool(x < y)),
        binop_value(RegBin::Lte, ValueView::Int(x), ValueView::Int(y)) == Some(ValueView::Bool(x <= y)),
        binop_value(RegBin::Gt, ValueView::Int(x), ValueView::Int(y)) == Some(ValueView::Bool(x > y)),
        binop_value(RegBin::Gte, ValueView::Int(x), ValueView::Int(y)) == Some(ValueView::Bool(x >= y)),
        binop_value(RegBin::Lte, ValueView::Int(x), ValueView::Int(y)) == Some(ValueView::Bool(
            binop_value(RegBin::Lt, ValueView::Int(x), ValueView::Int(y)) == Some(ValueView::Bool(true))
            || binop_value(RegBin::Eq, ValueView::Int(x), ValueView::Int(y)) == Some(ValueView::Bool(true)))),
        binop_value(RegBin::Gt, ValueView::Int(x), ValueView::Int(y)) == binop_value(RegBin::Lt, ValueView::Int(y), ValueView::Int(x)),
        binop_value(RegBin::Gte, ValueView::Int(x), ValueView::Int(y)) == binop_value(RegBin::Lte, ValueView::Int(y), ValueView::Int(x)),
{
    if 0 <= x && 0 < y {
        assert(0 <= x as int / y as int <= x as int) by (nonlinear_arith)
            requires 0 <= x as int, 0 < y as int;
        assert(0 <= (x as int) % (y as int) < (y as int)) by (nonlinear_arith)
            requires 0 <= x as int, 0 < y as int;
        if x == 0 {
            assert((0int) % (y as int) == 0) by (nonlinear_arith)
                requires 0 < y as int;
            assert((0int) / (y as int) == 0) by (nonlinear_arith)
                requires 0 < y as int;
        }
    }
}

/// Law: on two strings, the first `a` and the second `b`, `+` concatenates `a` then
/// `b`, equality is equality of the characters, and the order is code-point order
/// with `a` on the left.
pub proof fn law_binop_strs(a: Seq<char>, b: Seq<char>)
    ensures
        binop_value(RegBin::Add, ValueView::Str(a), ValueView::Str(b)) == Some(ValueView::Str(a + b)),
        binop_value(RegBin::Eq, ValueView::Str(a), ValueView::Str(b)) == Some(ValueView::Bool(a == b)),
        binop_value(RegBin::Neq, ValueView::Str(a), ValueView::Str(b)) == Some(ValueView::Bool(a != b)),
        binop_value(RegBin::Lt, ValueView::Str(a), ValueView::Str(b)) == Some(ValueView::Bool(seq_char_lt(a, b))),
        binop_value(RegBin::Lte, ValueView::Str(a), ValueView::Str(b)) == Some(ValueView::Bool(seq_char_lt(a, b) || a == b)),
        binop_value(RegBin::Gt, ValueView::Str(a), ValueView::Str(b)) == Some(ValueView::Bool(seq_char_lt(b, a))),
        binop_value(RegBin::Gte, ValueView::Str(a), ValueView::Str(b)) == Some(ValueView::Bool(seq_char_lt(b, a) || a == b)),
        binop_value(RegBin::Sub, ValueView::Str(a), ValueView::Str(b)) is None,
{
}

/// Law: each binary instruction is folded by the operator it names, with its first
/// source on the left: on integers `x` in `src1` and `y` in `src2`, `Lte` folds to
/// `x <= y`, `Lt` to `x < y`, `Sub` to `x - y`, and so on.
pub proof fn law_instruction_operators(dest: usize, src1: usize, src2: usize, x: i64, y: i64)
    ensures
        reg_bin_parts(IROp::Add { dest, src1, src2 }) == Some((RegBin::Add, dest, src1, src2)),
        reg_bin_parts(IROp::Sub { dest, src1, src2 }) == Some((RegBin::Sub, dest, src1, src2)),
        reg_bin_parts(IROp::Mul { dest, src1, src2 }) == Some((RegBin::Mul, dest, src1, src2)),
        reg_bin_parts(IROp::Div { dest, src1, src2 }) == Some((RegBin::Div, dest, src1, src2)),
        reg_bin_parts(IROp::Mod { dest, src1, src2 }) == Some((RegBin::Mod, dest, src1, src2)),
        reg_bin_parts(IROp::Eq { dest, src1, src2 }) == Some((RegBin::Eq, dest, src1, src2)),
        reg_bin_parts(IROp::Neq { dest, src1, src2 }) == Some((RegBin::Neq, dest, src1, src2)),
        reg_bin_parts(IROp::Lt { dest, src1, src2 }) == Some((RegBin::Lt, dest, src1, src2)),
        reg_bin_parts(IROp::Lte { dest, src1, src2 }) == Some((RegBin::Lte, dest, src1, src2)),
        reg_bin_parts(IROp::Gt { dest, src1, src2 }) == Some((RegBin::Gt, dest, src1, src2)),
        reg_bin_parts(IROp::Gte { dest, src1, src2 }) == Some((RegBin::Gte, dest, src1, src2)),
        reg_bin_parts(IROp::And { dest, src1, src2 }) == Some((RegBin::And, dest, src1, src2)),
        reg_bin_parts(IROp::Or { dest, src1, src2 }) == Some((RegBin::Or, dest, src1, src2)),
        (match reg_bin_parts(IROp::Lte { dest, src1, src2 }) {
            Some((k, _, _, _)) => binop_value(k, ValueView::Int(x), ValueView::Int(y)),
            None => None,
        }) == Some(ValueView::Bool(x <= y)),
        (match reg_bin_parts(IROp::Sub { dest, src1, src2 }) {
            Some((k, _, _, _)) => binop_value(k, ValueView::Int(x), ValueView::Int(y)),
            None => None,
        }) == int_fit(x - y),
{
}

/// Law: `and` and `or` of two booleans are conjunction and disjunction.
pub proof fn law_binop_bools(p: bool, q: bool)
    ensures
        binop_value(RegBin::And, ValueView::Bool(p), ValueView::Bool(q)) == Some(ValueView::Bool(p && q)),
        binop_value(RegBin::Or, ValueView::Bool(p), ValueView::Bool(q)) == Some(ValueView::Bool(p || q)),
        binop_value(RegBin::Eq, ValueView::Bool(p), ValueView::Bool(q)) == Some(ValueView::Bool(p == q)),
{
}

fn int_result(o: Option<i64>) -> (r: Option<Value>)
    ensures
        match r {
            Some(v) => int_value(o) == Some(value_view(v)),
            None => int_value(o) is None,
        },
{
    match o {
        Some(v) => Some(Value::Int(v)),
        None => None,
    }
}

/// The constant a binary instruction gives on two constant operands, if it folds.
pub fn compute_binop(op: &IROp, v1: &Value, v2: &Value) -> (r: Option<Value>)
    ensures
        match r {
            Some(v) => reg_bin_parts(*op) matches Some((k, _, _, _))
                && binop_value(k, value_view(*v1), value_view(*v2)) == Some(value_view(v)),
            None => match reg_bin_parts(*op) {
                Some((k, _, _, _)) => binop_value(k, value_view(*v1), value_view(*v2)) is None,
                None => true,
            },
        },
{
    let k = match reg_bin_parts_of(op) {
        Some((k, _, _, _)) => k,
        None => return None,
    };
    match k {
        RegBin::Add => match (v1, v2) {
            (Value::Int(a), Value::Int(b)) => int_result(a.checked_add(*b)),
            (Value::Str(a), Value::Str(b)) => {
                let mut s = a.clone();
                push_str(&mut s, b.as_str());
                Some(Value::Str(s))
            },
            _ => None,
        },
        RegBin::Sub => match (v1, v2) {
            (Value::Int(a), Value::Int(b)) => int_result(a.checked_sub(*b)),
            _ => None,
        },
        RegBin::Mul => match (v1, v2) {
            (Value::Int(a), Value::Int(b)) => int_result(a.checked_mul(*b)),
            _ => None,
        },
        RegBin::Div => match (v1, v2) {
            (Value::Int(a), Value::Int(b)) => int_result(a.checked_div(*b)),
            _ => None,
        },
        RegBin::Mod => match (v1, v2) {
            (Value::Int(a), Value::Int(b)) => int_result(a.checked_rem(*b)),
            _ => None,
        },
        RegBin::Eq => Some(Value::Bool(v1.equals(v2))),
        RegBin::Neq => Some(Value::Bool(!v1.equals(v2))),
        RegBin::Lt => match (v1, v2) {
            (Value::Int(a), Value::Int(b)) => Some(Value::Bool(*a < *b)),
            (Value::Str(a), Value::Str(b)) => Some(Value::Bool(str_lt(a.as_str(), b.as_str()))),
            _ => None,
        },
        RegBin::Lte => match (v1, v2) {
            (Value::Int(a), Value::Int(b)) => Some(Value::Bool(*a <= *b)),
            (Value::Str(a), Value::Str(b)) => Some(Value::Bool(
                str_lt(a.as_str(), b.as_str()) || crate::text::str_eq(a.as_str(), b.as_str()))),
            _ => None,
        },
        RegBin::Gt => match (v1, v2) {
            (Value::Int(a), Value::Int(b)) => Some(Value::Bool(*a > *b)),
            (Value::Str(a), Value::Str(b)) => Some(Value::Bool(str_lt(b.as_str(), a.as_str()))),
            _ => None,
        },
        RegBin::Gte => match (v1, v2) {
            (Value::Int(a), Value::Int(b)) => Some(Value::Bool(*a >= *b)),
            (Value::Str(a), Value::Str(b)) => Some(Value::Bool(
                str_lt(b.as_str(), a.as_str()) || crate::text::str_eq(a.as_str(), b.as_str()))),
            _ => None,
        },
        RegBin::And => match (v1, v2) {
            (Value::Bool(a), Value::Bool(b)) => Some(Value::Bool(*a && *b)),
            _ => None,
        },
        RegBin::Or => match (v1, v2) {
            (Value::Bool(a), Value::Bool(b)) => Some(Value::Bool(*a || *b)),
            _ => None,
        },
    }
}

/// What the folding knows: the constant held by registers and by locals.
pub struct FoldKnown {
    pub regs: Map<usize, ValueView>,
    pub locals: Map<usize, ValueView>,
}

/// The constant a `Not` gives: the negation of a boolean.
pub open spec fn not_value(a: Option<ValueView>) -> Option<ValueView> {
    match a {
        Some(ValueView::Bool(b)) => Some(ValueView::Bool(!b)),
        _ => None,
    }
}

/// Law: a negation of a known boolean gives the opposite boolean, and nothing
/// for any other operand.
pub proof fn law_not_value(b: bool, v: Option<ValueView>)
    ensures
        not_value(Some(ValueView::Bool(b))) == Some(ValueView::Bool(!b)),
        !(v matches Some(ValueView::Bool(_))) ==> not_value(v) is None,
{
}

/// One step of the folding: what is known after the instruction, and the
/// constant load that replaces it, if any. A constant load teaches its register;
/// a store of a known register teaches its local (else forgets it); a load of a
/// known local, a binary operation that folds, or a `Not` of a known boolean
/// becomes a constant load; anything else that writes a register forgets it.
pub open spec fn fold_step(k: FoldKnown, op: IROp) -> (FoldKnown, Option<(usize, ValueView)>) {
    match op {
        IROp::LConst { dest, value } =>
            (FoldKnown { regs: k.regs.insert(dest, value_view(value)), locals: k.locals }, None),
        IROp::SLocal { src, local_index } =>
            if k.regs.dom().contains(src) {
                (FoldKnown { regs: k.regs, locals: k.locals.insert(local_index, k.regs[src]) }, None)
            } else {
                (FoldKnown { regs: k.regs, locals: k.locals.remove(local_index) }, None)
            },
        IROp::LLocal { dest, local_index } =>
            if k.locals.dom().contains(local_index) {
                (FoldKnown { regs: k.regs.insert(dest, k.locals[local_index]), locals: k.locals },
                    Some((dest, k.locals[local_index])))
            } else {
                (FoldKnown { regs: k.regs.remove(dest), locals: k.locals }, None)
            },
        IROp::Not { dest, src } =>
            match not_value(if k.regs.dom().contains(src) { Some(k.regs[src]) } else { None }) {
                Some(v) => (FoldKnown { regs: k.regs.insert(dest, v), locals: k.locals }, Some((dest, v))),
                None => (FoldKnown { regs: k.regs.remove(dest), locals: k.locals }, None),
            },
        IROp::Inc { dest } | IROp::Dec { dest } | IROp::Call { dest, .. } | IROp::CallLabel { dest, .. } =>
            (FoldKnown { regs: k.regs.remove(dest), locals: k.locals }, None),
        _ => match reg_bin_parts(op) {
            Some((b, dest, src1, src2)) => {
                let folded = if k.regs.dom().contains(src1) && k.regs.dom().contains(src2) {
                    binop_value(b, k.regs[src1], k.regs[src2])
                } else {
                    None
                };
                match folded {
                    Some(v) => (FoldKnown { regs: k.regs.insert(dest, v), locals: k.locals }, Some((dest, v))),
                    None => (FoldKnown { regs: k.regs.remove(dest), locals: k.locals }, None),
                }
            },
            None => (k, None),
        },
    }
}

/// What is known before instruction `i`.
pub open spec fn fold_known(ops: Seq<IROp>, i: nat) -> FoldKnown
    decreases i,
{
    if i == 0 || i > ops.len() {
        FoldKnown { regs: Map::empty(), locals: Map::empty() }
    } else {
        fold_step(fold_known(ops, (i - 1) as nat), ops[i - 1]).0
    }
}

/// The constant load that replaces instruction `i`, if any.
pub open spec fn fold_rewrite(ops: Seq<IROp>, i: int) -> Option<(usize, ValueView)> {
    fold_step(fold_known(ops, i as nat), ops[i]).1
}

/// Instruction `new` is `old`, or the constant load that replaces it.
pub open spec fn folded_as(new: IROp, old: IROp, rw: Option<(usize, ValueView)>) -> bool {
    match rw {
        None => new == old,
        Some((d, v)) => new matches IROp::LConst { dest, value } && dest == d && value_view(value) == v,
    }
}

/// Constants known for registers or locals, by index.
struct Known {
    entries: Vec<(usize, Value)>,
}

impl Known {
    spec fn view(&self) -> Map<usize, ValueView> {
        Map::new(
            |k: usize| exists|i: int| 0 <= i < self.entries@.len() && self.entries@[i].0 == k,
            |k: usize| value_view(self.entries@[choose|i: int| 0 <= i < self.entries@.len() && self.entries@[i].0 == k].1),
        )
    }

    spec fn wf(&self) -> bool {
        forall|i: int, j: int| 0 <= i < j < self.entries@.len() ==> self.entries@[i].0 != self.entries@[j].0
    }

    proof fn lemma_at(&self, i: int)
        requires
            self.wf(),
            0 <= i < self.entries@.len(),
        ensures
            self.view().dom().contains(self.entries@[i].0),
            self.view()[self.entries@[i].0] == value_view(self.entries@[i].1),
    {
        let k = self.entries@[i].0;
        let c = choose|c: int| 0 <= c < self.entries@.len() && self.entries@[c].0 == k;
        assert(0 <= c < self.entries@.len() && self.entries@[c].0 == k);
        if c != i {
            if c < i { assert(self.entries@[c].0 != self.entries@[i].0); }
            else { assert(self.entries@[i].0 != self.entries@[c].0); }
        }
    }

    fn new() -> (r: Self)
        ensures
            r.wf(),
            r.view() == Map::<usize, ValueView>::empty(),
    {
        let r = Known { entries: Vec::new() };
        assert(r.view() =~= Map::<usize, ValueView>::empty());
        r
    }

    fn find(&self, k: usize) -> (r: Option<usize>)
        requires
            self.wf(),
        ensures
            match r {
                Some(i) => i < self.entries@.len() && self.entries@[i as int].0 == k,
                None => !self.view().dom().contains(k),
            },
    {
        let mut i: usize = 0;
        while i < self.entries.len()
            invariant
                i <= self.entries@.len(),
                forall|j: int| 0 <= j < i ==> self.entries@[j].0 != k,
            decreases self.entries@.len() - i,
        {
            if self.entries[i].0 == k {
                return Some(i);
            }
            i += 1;
        }
        None
    }

    /// A copy of the constant known for `k`.
    fn get(&self, k: usize) -> (r: Option<Value>)
        requires
            self.wf(),
        ensures
            match r {
                Some(v) => self.view().dom().contains(k) && self.view()[k] == value_view(v),
                None => !self.view().dom().contains(k),
            },
    {
        match self.find(k) {
            Some(i) => {
                proof { self.lemma_at(i as int); }
                Some(self.entries[i].1.duplicate())
            },
            None => None,
        }
    }

    fn remove(&mut self, k: usize)
        requires
            old(self).wf(),
        ensures
            final(self).wf(),
            final(self).view() == old(self).view().remove(k),
    {
        match self.find(k) {
            Some(i) => {
                let ghost before = self.entries@;
                let _ = self.entries.remove(i);
                proof {
                    assert forall|a: int, b: int| 0 <= a < b < self.entries@.len() implies self.entries@[a].0 != self.entries@[b].0 by {
                        let a0 = if a < i { a } else { a + 1 };
                        let b0 = if b < i { b } else { b + 1 };
                        assert(self.entries@[a] == before[a0]);
                        assert(self.entries@[b] == before[b0]);
                    }
                    assert forall|x: usize| #[trigger] self.view().dom().contains(x) <==> old(self).view().remove(k).dom().contains(x) by {
                        if self.view().dom().contains(x) {
                            let j = choose|j: int| 0 <= j < self.entries@.len() && self.entries@[j].0 == x;
                            let j0 = if j < i { j } else { j + 1 };
                            assert(self.entries@[j] == before[j0]);
                            if x == k {
                                if j0 < i { assert(before[j0].0 != before[i as int].0); }
                                else { assert(before[i as int].0 != before[j0].0); }
                            }
                        }
                        if old(self).view().remove(k).dom().contains(x) {
                            let j0 = choose|j: int| 0 <= j < before.len() && before[j].0 == x;
                            assert(j0 != i);
                            let j = if j0 < i { j0 } else { j0 - 1 };
                            assert(self.entries@[j] == before[j0]);
                        }
                    }
                    assert forall|x: usize| #[trigger] self.view().dom().contains(x) implies self.view()[x] == old(self).view()[x] by {
                        let j = choose|j: int| 0 <= j < self.entries@.len() && self.entries@[j].0 == x;
                        let j0 = if j < i { j } else { j + 1 };
                        assert(self.entries@[j] == before[j0]);
                        self.lemma_at(j);
                        old(self).lemma_at(j0);
                    }
                    assert(self.view() =~= old(self).view().remove(k));
                }
            },
            None => {
                assert(self.view() =~= old(self).view().remove(k));
            },
        }
    }

    fn insert(&mut self, k: usize, v: Value)
        requires
            old(self).wf(),
        ensures
            final(self).wf(),
            final(self).view() == old(self).view().insert(k, value_view(v)),
    {
        self.remove(k);
        let ghost mid = self.entries@;
        let ghost mid_view = self.view();
        let ghost vv = value_view(v);
        self.entries.push((k, v));
        proof {
            let n = mid.len() as int;
            assert forall|a: int, b: int| 0 <= a < b < self.entries@.len() implies self.entries@[a].0 != self.entries@[b].0 by {
                assert(self.entries@[a] == mid[a]);
                if b < n { assert(self.entries@[b] == mid[b]); } else {
                    if mid[a].0 == k {
                        assert(mid_view.dom().contains(k));
                    }
                }
            }
            self.lemma_at(n);
            assert forall|x: usize| #[trigger] self.view().dom().contains(x) <==> mid_view.insert(k, vv).dom().contains(x) by {
                if x != k {
                    if self.view().dom().contains(x) {
                        let j = choose|j: int| 0 <= j < self.entries@.len() && self.entries@[j].0 == x;
                        assert(j < n);
                        assert(self.entries@[j] == mid[j]);
                    }
                    if mid_view.dom().contains(x) {
                        let j = choose|j: int| 0 <= j < mid.len() && mid[j].0 == x;
                        assert(self.entries@[j] == mid[j]);
                    }
                }
            }
            assert forall|x: usize| #[trigger] self.view().dom().contains(x) && x != k implies self.view()[x] == mid_view[x] by {
                let j = choose|j: int| 0 <= j < self.entries@.len() && self.entries@[j].0 == x;
                assert(j < n);
                assert(self.entries@[j] == mid[j]);
                self.lemma_at(j);
                assert(mid_view[x] == value_view(mid[j].1)) by {
                    let c = choose|c: int| 0 <= c < mid.len() && mid[c].0 == x;
                    if c != j {
                        if c < j { assert(mid[c].0 != mid[j].0); } else { assert(mid[j].0 != mid[c].0); }
                    }
                }
            }
            assert(self.view() =~= mid_view.insert(k, vv));
        }
    }
}

/// One instruction through the folding: updates what is known and gives the
/// instruction that takes its place.
fn fold_one(op: IROp, regs: &mut Known, locals: &mut Known) -> (r: IROp)
    requires
        old(regs).wf(),
        old(locals).wf(),
    ensures
        final(regs).wf(),
        final(locals).wf(),
        ({
            let (k, rw) = fold_step(FoldKnown { regs: old(regs).view(), locals: old(locals).view() }, op);
            &&& final(regs).view() == k.regs
            &&& final(locals).view() == k.locals
            &&& folded_as(r, op, rw)
        }),
{
    let repl: Option<IROp> = match &op {
        IROp::LConst { dest, value } => {
            regs.insert(*dest, value.duplicate());
            None
        },
        IROp::SLocal { src, local_index } => {
            match regs.get(*src) {
                Some(v) => { locals.insert(*local_index, v); },
                None => { locals.remove(*local_index); },
            }
            None
        },
        IROp::LLocal { dest, local_index } => {
            match locals.get(*local_index) {
                Some(v) => {
                    regs.insert(*dest, v.duplicate());
                    Some(IROp::LConst { dest: *dest, value: v })
                },
                None => {
                    regs.remove(*dest);
                    None
                },
            }
        },
        IROp::Not { dest, src } => {
            match regs.get(*src) {
                Some(Value::Bool(b)) => {
                    regs.insert(*dest, Value::Bool(!b));
                    Some(IROp::LConst { dest: *dest, value: Value::Bool(!b) })
                },
                _ => {
                    regs.remove(*dest);
                    None
                },
            }
        },
        IROp::Inc { dest } | IROp::Dec { dest } | IROp::Call { dest, .. } | IROp::CallLabel { dest, .. } => {
            regs.remove(*dest);
            None
        },
        _ => {
            match reg_bin_parts_of(&op) {
                Some((_k, dest, src1, src2)) => {
                    let a = regs.get(src1);
                    let b = regs.get(src2);
                    let folded = match (a, b) {
                        (Some(x), Some(y)) => compute_binop(&op, &x, &y),
                        _ => None,
                    };
                    match folded {
                        Some(res) => {
                            regs.insert(dest, res.duplicate());
                            Some(IROp::LConst { dest, value: res })
                        },
                        None => {
                            regs.remove(dest);
                            None
                        },
                    }
                },
                None => None,
            }
        },
    };
    match repl {
        Some(r) => r,
        None => op,
    }
}

/// Folds constants through registers and locals, instruction by instruction (see
/// `fold_step`); only the instructions change.
pub fn constant_fold(ir: &mut IrModule)
    ensures
        final(ir).same_but_code(old(ir)),
        final(ir).label_positions() == old(ir).label_positions(),
        final(ir).code().len() == old(ir).code().len(),
        forall|i: int| 0 <= i < old(ir).code().len()
            ==> folded_as(#[trigger] final(ir).code()[i], old(ir).code()[i], fold_rewrite(old(ir).code(), i)),
{
    let mut rest: Vec<IROp> = ir.replace_ops(Vec::new());
    let ghost mid = *ir;
    let ghost orig = rest@;
    let ghost n = orig.len();
    let mut regs = Known::new();
    let mut locals = Known::new();
    let mut out: Vec<IROp> = Vec::new();
    assert(orig.subrange(0, n as int) =~= orig);
    while rest.len() > 0
        invariant
            n == orig.len(),
            out@.len() + rest@.len() == n,
            rest@ == orig.subrange(out@.len() as int, n as int),
            regs.wf(),
            locals.wf(),
            regs.view() == fold_known(orig, out@.len() as nat).regs,
            locals.view() == fold_known(orig, out@.len() as nat).locals,
            forall|j: int| 0 <= j < out@.len() ==> folded_as(#[trigger] out@[j], orig[j], fold_rewrite(orig, j)),
        decreases rest@.len(),
    {
        let ghost i = out@.len() as int;
        let ghost pre = rest@;
        let op = rest.remove(0);
        assert(pre[0] == orig.subrange(i, n as int)[0]);
        assert(op == orig[i]);
        assert(rest@ =~= orig.subrange(i + 1, n as int));
        let ghost before = FoldKnown { regs: regs.view(), locals: locals.view() };
        assert(before == fold_known(orig, i as nat));
        let r = fold_one(op, &mut regs, &mut locals);
        out.push(r);
        assert(fold_known(orig, (i + 1) as nat) == fold_step(fold_known(orig, i as nat), orig[i]).0);
    }
    let _ = ir.replace_ops(out);
    proof { IrModule::lemma_same_but_code_trans(ir, &mid, old(ir)); }
}

/// Whether instruction `i` jumps or branches to the instruction right after it.
pub open spec fn is_noop_jump(ops: Seq<IROp>, i: int) -> bool {
    match ops[i] {
        IROp::Jump { target } => target == i + 1,
        IROp::BrTrue { target, .. } => target == i + 1,
        IROp::BrFalse { target, .. } => target == i + 1,
        _ => false,
    }
}

/// The number of kept instructions before position `i`.
pub open spec fn kept_before(ops: Seq<IROp>, i: int) -> nat
    decreases i,
{
    if i <= 0 || i > ops.len() {
        0
    } else {
        kept_before(ops, i - 1) + if is_noop_jump(ops, i - 1) { 0nat } else { 1nat }
    }
}

/// Where an instruction index goes once the no-op jumps are gone: the new index of
/// a kept instruction; any other index is left as it is.
pub open spec fn reindex(ops: Seq<IROp>, t: usize) -> usize {
    if (t as int) < ops.len() && !is_noop_jump(ops, t as int) {
        kept_before(ops, t as int) as usize
    } else {
        t
    }
}

/// The instruction with its jump, branch or call target moved by `reindex`.
pub open spec fn retargeted(new: IROp, old: IROp, ops: Seq<IROp>) -> bool {
    match old {
        IROp::Jump { target } => new == IROp::Jump { target: reindex(ops, target) },
        IROp::BrTrue { cond, target } => new == IROp::BrTrue { cond, target: reindex(ops, target) },
        IROp::BrFalse { cond, target } => new == IROp::BrFalse { cond, target: reindex(ops, target) },
        IROp::CallLabel { dest, label_index, args } => new == IROp::CallLabel { dest, label_index: reindex(ops, label_index), args },
        _ => new == old,
    }
}

proof fn lemma_kept_before_mono(ops: Seq<IROp>, a: int, b: int)
    requires
        0 <= a <= b <= ops.len(),
    ensures
        kept_before(ops, a) <= kept_before(ops, b),
    decreases b - a,
{
    if a < b {
        lemma_kept_before_mono(ops, a, b - 1);
    }
}

/// The instruction with its target moved to the new position.
fn retarget(op: IROp, keep: &Vec<bool>, newidx: &Vec<usize>, Ghost(orig): Ghost<Seq<IROp>>) -> (r: IROp)
    requires
        keep@.len() == orig.len(),
        newidx@.len() == orig.len(),
        forall|j: int| 0 <= j < orig.len() ==> #[trigger] keep@[j] == !is_noop_jump(orig, j),
        forall|j: int| 0 <= j < orig.len() ==> #[trigger] newidx@[j] == kept_before(orig, j),
    ensures
        retargeted(r, op, orig),
{
    let n = keep.len();
    match op {
        IROp::Jump { target } => {
            let t = if target < n && keep[target] { newidx[target] } else { target };
            IROp::Jump { target: t }
        },
        IROp::BrTrue { cond, target } => {
            let t = if target < n && keep[target] { newidx[target] } else { target };
            IROp::BrTrue { cond, target: t }
        },
        IROp::BrFalse { cond, target } => {
            let t = if target < n && keep[target] { newidx[target] } else { target };
            IROp::BrFalse { cond, target: t }
        },
        IROp::CallLabel { dest, label_index, args } => {
            let t = if label_index < n && keep[label_index] { newidx[label_index] } else { label_index };
            IROp::CallLabel { dest, label_index: t, args }
        },
        other => other,
    }
}

proof fn lemma_out_extends(orig: Seq<IROp>, before: Seq<IROp>, after: Seq<IROp>, i: int)
    requires
        0 <= i < orig.len(),
        !is_noop_jump(orig, i),
        before.len() == kept_before(orig, i),
        after.len() == before.len() + 1,
        after.subrange(0, before.len() as int) == before,
        retargeted(after.last(), orig[i], orig),
        forall|j: int| 0 <= j < i && !is_noop_jump(orig, j)
            ==> retargeted(before[kept_before(orig, j) as int], #[trigger] orig[j], orig),
    ensures
        after.len() == kept_before(orig, i + 1),
        forall|j: int| 0 <= j < i + 1 && !is_noop_jump(orig, j)
            ==> retargeted(after[kept_before(orig, j) as int], #[trigger] orig[j], orig),
{
    assert forall|j: int| 0 <= j < i + 1 && !is_noop_jump(orig, j)
        implies retargeted(after[kept_before(orig, j) as int], #[trigger] orig[j], orig) by {
        if j < i {
            lemma_kept_before_mono(orig, j + 1, i);
            assert(after[kept_before(orig, j) as int] == after.subrange(0, before.len() as int)[kept_before(orig, j) as int]);
        }
    }
}

/// Drops every jump or branch to the next instruction and moves the targets of
/// jumps, branches, label calls and stage labels to the new positions.
pub fn remove_noop_jumps_and_reindex(ir: &mut IrModule)
    ensures
        final(ir).same_but_code_and_labels(old(ir)),
        final(ir).code().len() == kept_before(old(ir).code(), old(ir).code().len() as int),
        forall|i: int| 0 <= i < old(ir).code().len() && !is_noop_jump(old(ir).code(), i)
            ==> retargeted(final(ir).code()[kept_before(old(ir).code(), i) as int], #[trigger] old(ir).code()[i], old(ir).code()),
        final(ir).label_positions().len() == old(ir).label_positions().len(),
        forall|k: int| 0 <= k < old(ir).label_positions().len() ==> #[trigger] final(ir).label_positions()[k]
            == (old(ir).label_positions()[k].0, reindex(old(ir).code(), old(ir).label_positions()[k].1)),
{
    let mut rest: Vec<IROp> = ir.replace_ops(Vec::new());
    let ghost mid = *ir;
    let ghost orig = rest@;
    let n = rest.len();
    // the new position of every instruction, and whether it stays
    let mut keep: Vec<bool> = Vec::new();
    let mut newidx: Vec<usize> = Vec::new();
    let mut count: usize = 0;
    let mut i: usize = 0;
    while i < n
        invariant
            n == orig.len(),
            rest@ == orig,
            i <= n,
            keep@.len() == i,
            newidx@.len() == i,
            count == kept_before(orig, i as int),
            count <= i,
            forall|j: int| 0 <= j < i ==> #[trigger] keep@[j] == !is_noop_jump(orig, j),
            forall|j: int| 0 <= j < i ==> #[trigger] newidx@[j] == kept_before(orig, j),
        decreases n - i,
    {
        let noop = match &rest[i] {
            IROp::Jump { target } => *target == i + 1,
            IROp::BrTrue { target, .. } => *target == i + 1,
            IROp::BrFalse { target, .. } => *target == i + 1,
            _ => false,
        };
        keep.push(!noop);
        newidx.push(count);
        if !noop {
            count = count + 1;
        }
        i += 1;
    }
    let mut out: Vec<IROp> = Vec::new();
    let mut i: usize = 0;
    assert(orig.subrange(0, n as int) =~= orig);
    while i < n
        invariant
            n == orig.len(),
            i <= n,
            rest@ == orig.subrange(i as int, n as int),
            keep@.len() == n,
            newidx@.len() == n,
            forall|j: int| 0 <= j < n ==> #[trigger] keep@[j] == !is_noop_jump(orig, j),
            forall|j: int| 0 <= j < n ==> #[trigger] newidx@[j] == kept_before(orig, j),
            out@.len() == kept_before(orig, i as int),
            forall|j: int| 0 <= j < i && !is_noop_jump(orig, j)
                ==> retargeted(out@[kept_before(orig, j) as int], #[trigger] orig[j], orig),
        decreases n - i,
    {
        let ghost pre = rest@;
        let op = rest.remove(0);
        assert(pre[0] == orig.subrange(i as int, n as int)[0]);
        assert(rest@ =~= orig.subrange(i as int + 1, n as int));
        if keep[i] {
            let moved = retarget(op, &keep, &newidx, Ghost(orig));
            let ghost before = out@;
            out.push(moved);
            proof {
                assert(out@.subrange(0, before.len() as int) =~= before);
                lemma_out_extends(orig, before, out@, i as int);
            }
        }
        i += 1;
    }
    let _ = ir.replace_ops(out);
    let ghost mid2 = *ir;
    // the stage labels
    let mut labels: Vec<(String, usize)> = ir.replace_stage_labels(Vec::new());
    let ghost mid3 = *ir;
    let ghost lorig = labels@;
    let mut newlabels: Vec<(String, usize)> = Vec::new();
    let mut k: usize = 0;
    let m = labels.len();
    assert(lorig.subrange(0, m as int) =~= lorig);
    while labels.len() > 0
        invariant
            m == lorig.len(),
            newlabels@.len() + labels@.len() == m,
            labels@ == lorig.subrange(newlabels@.len() as int, m as int),
            keep@.len() == n,
            newidx@.len() == n,
            n == orig.len(),
            forall|j: int| 0 <= j < n ==> #[trigger] keep@[j] == !is_noop_jump(orig, j),
            forall|j: int| 0 <= j < n ==> #[trigger] newidx@[j] == kept_before(orig, j),
            forall|j: int| 0 <= j < newlabels@.len() ==> (#[trigger] newlabels@[j]).0@ == lorig[j].0@
                && newlabels@[j].1 == reindex(orig, lorig[j].1),
        decreases labels@.len(),
    {
        let ghost j = newlabels@.len() as int;
        let ghost pre = labels@;
        let (name, idx) = labels.remove(0);
        assert(pre[0] == lorig.subrange(j, m as int)[0]);
        assert(labels@ =~= lorig.subrange(j + 1, m as int));
        let t = if idx < n && keep[idx] { newidx[idx] } else { idx };
        newlabels.push((name, t));
    }
    let _ = ir.replace_stage_labels(newlabels);
    proof {
        assert(mid.same_but_code_and_labels(old(ir))) by {
            IrModule::lemma_same_but_code_weaken(&mid, old(ir));
        }
        IrModule::lemma_same_but_code_weaken(&mid2, &mid);
        IrModule::lemma_same_but_code_and_labels_trans(&mid2, &mid, old(ir));
        IrModule::lemma_same_but_code_and_labels_trans(&mid3, &mid2, old(ir));
        IrModule::lemma_same_but_code_and_labels_trans(ir, &mid3, old(ir));
        assert(lorig.map_values(|e: (String, usize)| (e.0@, e.1)) == old(ir).label_positions());
        assert forall|q: int| 0 <= q < old(ir).label_positions().len() implies #[trigger] ir.label_positions()[q]
            == (old(ir).label_positions()[q].0, reindex(old(ir).code(), old(ir).label_positions()[q].1)) by {
            assert(old(ir).label_positions()[q] == (lorig[q].0@, lorig[q].1));
        }
    }
}

/// Only loads, `Not`s and binary operations are ever replaced by the folding.
proof fn lemma_fold_rewrites_computations(ops: Seq<IROp>, i: int)
    requires
        0 <= i < ops.len(),
        fold_rewrite(ops, i) is Some,
    ensures
        ops[i] is LLocal || ops[i] is Not || reg_bin_parts(ops[i]) is Some,
{
}

/// Folding constants keeps every jump, branch and label call on a label.
pub proof fn lemma_fold_keeps_landing(old: Seq<IROp>, new: Seq<IROp>)
    requires
        new.len() == old.len(),
        forall|i: int| 0 <= i < old.len() ==> folded_as(#[trigger] new[i], old[i], fold_rewrite(old, i)),
    ensures
        branches_land_on_labels(old) ==> branches_land_on_labels(new),
        calls_land_on_labels(old) ==> calls_land_on_labels(new),
{
    assert forall|i: int| 0 <= i < old.len() && (is_branch(#[trigger] new[i]) || new[i] is CallLabel || is_label(new[i]))
        implies new[i] == old[i] by {
        if fold_rewrite(old, i) is Some {
            lemma_fold_rewrites_computations(old, i);
        }
    }
    assert forall|i: int| 0 <= i < old.len() && (is_branch(#[trigger] old[i]) || old[i] is CallLabel || is_label(old[i]))
        implies new[i] == old[i] by {
        if fold_rewrite(old, i) is Some {
            lemma_fold_rewrites_computations(old, i);
        }
    }
}

/// No more instructions are kept before `i` than there are.
proof fn lemma_kept_before_le(ops: Seq<IROp>, i: int)
    requires
        0 <= i <= ops.len(),
    ensures
        kept_before(ops, i) <= i,
    decreases i,
{
    if i > 0 {
        lemma_kept_before_le(ops, i - 1);
    }
}

/// Every position of the shortened list holds a kept instruction.
proof fn lemma_kept_onto(ops: Seq<IROp>, k: int, p: int)
    requires
        0 <= k <= ops.len(),
        0 <= p < kept_before(ops, k),
    ensures
        exists|i: int| 0 <= i < k && !is_noop_jump(ops, i) && kept_before(ops, i) == p,
    decreases k,
{
    if p < kept_before(ops, k - 1) {
        lemma_kept_onto(ops, k - 1, p);
        let i = choose|i: int| 0 <= i < k - 1 && !is_noop_jump(ops, i) && kept_before(ops, i) == p;
        assert(0 <= i < k && !is_noop_jump(ops, i) && kept_before(ops, i) == p);
    } else {
        assert(!is_noop_jump(ops, k - 1) && kept_before(ops, k - 1) == p);
    }
}

/// Dropping jumps to the next instruction keeps every jump, branch and label call
/// on a label.
pub proof fn lemma_reindex_keeps_landing(old: Seq<IROp>, new: Seq<IROp>)
    requires
        old.len() <= usize::MAX,
        new.len() == kept_before(old, old.len() as int),
        forall|i: int| 0 <= i < old.len() && !is_noop_jump(old, i)
            ==> retargeted(new[kept_before(old, i) as int], #[trigger] old[i], old),
    ensures
        branches_land_on_labels(old) ==> branches_land_on_labels(new),
        calls_land_on_labels(old) ==> calls_land_on_labels(new),
{
    let n = old.len() as int;
    assert forall|t: int| 0 <= t < n && is_label(#[trigger] old[t])
        implies kept_before(old, t) < new.len() && is_label(new[kept_before(old, t) as int])
            && reindex(old, t as usize) == kept_before(old, t) by {
        assert(!is_noop_jump(old, t));
        lemma_kept_before_mono(old, t + 1, n);
        lemma_kept_before_le(old, t);
        assert(retargeted(new[kept_before(old, t) as int], old[t], old));
    }
    if branches_land_on_labels(old) {
        assert forall|p: int| 0 <= p < new.len() && is_branch(#[trigger] new[p])
            implies branch_target(new[p]) < new.len() && is_label(new[branch_target(new[p]) as int]) by {
            lemma_kept_onto(old, n, p);
            let i = choose|i: int| 0 <= i < n && !is_noop_jump(old, i) && kept_before(old, i) == p;
            assert(retargeted(new[p], old[i], old));
            assert(is_branch(old[i]));
            let t = branch_target(old[i]) as int;
            assert(is_label(old[t]));
        }
    }
    if calls_land_on_labels(old) {
        assert forall|p: int| 0 <= p < new.len() && (#[trigger] new[p] is CallLabel)
            implies new[p]->CallLabel_label_index < new.len() && is_label(new[new[p]->CallLabel_label_index as int]) by {
            lemma_kept_onto(old, n, p);
            let i = choose|i: int| 0 <= i < n && !is_noop_jump(old, i) && kept_before(old, i) == p;
            assert(retargeted(new[p], old[i], old));
            assert(old[i] is CallLabel);
            let t = old[i]->CallLabel_label_index as int;
            assert(is_label(old[t]));
        }
    }
}

/// Optimizes a lowered module in place: constants are folded, then jumps to the
/// next instruction are dropped and the targets moved. No interprocedural
/// substitution is made: the module records no names for the locals its stores
/// write nor the parameters of its stages, which that step would need.
pub fn optimize(ir: &mut IrModule)
    ensures
        final(ir).same_but_code_and_labels(old(ir)),
        branches_land_on_labels(old(ir).code()) ==> branches_land_on_labels(final(ir).code()),
        calls_land_on_labels(old(ir).code()) ==> calls_land_on_labels(final(ir).code()),
        exists|m: Seq<IROp>| {
            &&& m.len() == old(ir).code().len()
            &&& forall|i: int| 0 <= i < m.len() ==> folded_as(#[trigger] m[i], old(ir).code()[i], fold_rewrite(old(ir).code(), i))
            &&& final(ir).code().len() == kept_before(m, m.len() as int)
            &&& forall|i: int| 0 <= i < m.len() && !is_noop_jump(m, i)
                ==> retargeted(final(ir).code()[kept_before(m, i) as int], #[trigger] m[i], m)
            &&& final(ir).label_positions().len() == old(ir).label_positions().len()
            &&& forall|k: int| 0 <= k < old(ir).label_positions().len() ==> #[trigger] final(ir).label_positions()[k]
                == (old(ir).label_positions()[k].0, reindex(m, old(ir).label_positions()[k].1))
        },
{
    constant_fold(ir);
    let _n = ir.len();
    let ghost mid = *ir;
    remove_noop_jumps_and_reindex(ir);
    proof {
        let m = mid.code();
        assert(m.len() == old(ir).code().len());
        lemma_fold_keeps_landing(old(ir).code(), m);
        lemma_reindex_keeps_landing(m, ir.code());
        assert(forall|i: int| 0 <= i < m.len() ==> folded_as(#[trigger] m[i], old(ir).code()[i], fold_rewrite(old(ir).code(), i)));
        IrModule::lemma_same_but_code_weaken(&mid, old(ir));
        IrModule::lemma_same_but_code_and_labels_trans(ir, &mid, old(ir));
    }
}

} // verus!
