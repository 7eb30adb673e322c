//! Constant folding: a forward scan that tracks slots holding known constants
//! and replaces instructions whose result is known by a `LoadConst`.
use vstd::prelude::*;
use crate::ir::slot::Slot;
use crate::ir::op::Op;
use crate::ir::value::{OpValue, ConstVal, lemma_const_views_len, lemma_const_views_index};
use crate::ir::slotmap::{SlotMap, SlotSet};
use crate::ir::fold::{
    BinKind, bin_parts, bin_parts_of, int_arith, int_cmp, str_cmp, is_arith, int_arith_exec,
    int_cmp_exec, str_cmp_exec, str_len_value, str_len_value_exec,
};
use crate::ir::optimization::pass::{Pass, slots_within, lemma_slots_within, lemma_slots_of_member};
use crate::ir::op::{op_defines, op_uses};
use crate::ir::meta::{mentions, op_slots};
use crate::text::{push_str, seq_char_lt};

verus! {

/// The number of `StoreLocal` instructions that write `s`.
pub open spec fn store_count(ops: Seq<Op>, s: Slot) -> nat
    decreases ops.len(),
{
    if ops.len() == 0 {
        0
    } else {
        store_count(ops.drop_last(), s) + (match ops.last() {
            Op::StoreLocal { target, .. } => if target == s { 1nat } else { 0nat },
            _ => 0nat,
        })
    }
}

/// Whether some `Inc` or `Dec` changes `s`.
pub open spec fn stepped(ops: Seq<Op>, s: Slot) -> bool {
    exists|i: int| 0 <= i < ops.len() && (match #[trigger] ops[i] {
        Op::Inc { target } => target == s,
        Op::Dec { target } => target == s,
        _ => false,
    })
}

/// The locals that constant folding treats as mutable: stored more than once, or
/// incremented or decremented.
pub open spec fn cf_mutated(ops: Seq<Op>) -> Set<Slot> {
    Set::new(|s: Slot| store_count(ops, s) > 1 || stepped(ops, s))
}

/// The constants known while scanning: in slots written by instructions, and in locals.
pub struct FoldMaps {
    pub regs: Map<Slot, ConstVal>,
    pub locals: Map<Slot, ConstVal>,
}

/// What one instruction does to the known constants.
pub enum FoldAction {
    /// The target is known to hold the constant.
    Replace(Slot, ConstVal),
    /// Nothing is known of the target any more.
    Invalidate(Slot),
    /// Nothing is known of the slot, as a register or as a local.
    Forget(Slot),
    /// The local now holds the given constant, or nothing known.
    SetLocal(Slot, Option<ConstVal>),
    Keep,
}

/// The constant known for a slot: as a register first, then as a local.
pub open spec fn cf_lookup(st: FoldMaps, s: Slot) -> Option<ConstVal> {
    if st.regs.contains_key(s) {
        Some(st.regs[s])
    } else if st.locals.contains_key(s) {
        Some(st.locals[s])
    } else {
        None
    }
}

/// The value of a binary operator on known constants.
pub open spec fn cf_fold(k: BinKind, l: Option<ConstVal>, r: Option<ConstVal>) -> Option<ConstVal> {
    match (l, r) {
        (Some(ConstVal::Int(a)), Some(ConstVal::Int(b))) => {
            if is_arith(k) {
                match int_arith(k, a, b) {
                    Some(x) => Some(ConstVal::Int(x)),
                    None => None,
                }
            } else {
                Some(ConstVal::Bool(int_cmp(k, a, b)))
            }
        },
        (Some(ConstVal::Str(a)), Some(ConstVal::Str(b))) => {
            if k == BinKind::Add {
                Some(ConstVal::Str(a + b))
            } else if is_arith(k) {
                None
            } else {
                Some(ConstVal::Bool(str_cmp(k, a, b)))
            }
        },
        (Some(ConstVal::Bool(a)), Some(ConstVal::Bool(b))) => {
            if k == BinKind::Eq {
                Some(ConstVal::Bool(a == b))
            } else if k == BinKind::Ne {
                Some(ConstVal::Bool(a != b))
            } else {
                None
            }
        },
        (Some(ConstVal::Null), Some(ConstVal::Null)) => {
            if k == BinKind::Eq {
                Some(ConstVal::Bool(true))
            } else if k == BinKind::Ne {
                Some(ConstVal::Bool(false))
            } else {
                None
            }
        },
        _ => None,
    }
}

/// Law: `!=` folds to the negation of what `==` folds to, and to nothing where `==`
/// folds to nothing.
pub proof fn law_ne_negates_eq(l: Option<ConstVal>, r: Option<ConstVal>)
    ensures
        cf_fold(BinKind::Ne, l, r) == (match cf_fold(BinKind::Eq, l, r) {
            Some(ConstVal::Bool(b)) => Some(ConstVal::Bool(!b)),
            other => other,
        }),
{
}

/// An integer constant when `x` fits in an `i64`.
pub open spec fn int_const(x: int) -> Option<ConstVal> {
    if i64::MIN <= x <= i64::MAX { Some(ConstVal::Int(x as i64)) } else { None }
}

/// Law: on two integer constants, the left operand `a` and the right operand `b`,
/// folding gives the mathematical result: `a + b`, `a - b`, `a * b` when they fit,
/// the quotient of `a` by `b` when that fits (see `law_int_div`), and the truth of
/// `a == b`, `a != b`, `a < b`, `a <= b`, `a > b`, `a >= b`.
pub proof fn law_fold_ints(a: i64, b: i64)
    ensures
        cf_fold(BinKind::Add, Some(ConstVal::Int(a)), Some(ConstVal::Int(b))) == int_const(a + b),
        cf_fold(BinKind::Sub, Some(ConstVal::Int(a)), Some(ConstVal::Int(b))) == int_const(a - b),
        cf_fold(BinKind::Mul, Some(ConstVal::Int(a)), Some(ConstVal::Int(b))) == int_const(a * b),
        cf_fold(BinKind::Div, Some(ConstVal::Int(a)), Some(ConstVal::Int(b)))
            == (match int_arith(BinKind::Div, a, b) { Some(q) => Some(ConstVal::Int(q)), None => None }),
        cf_fold(BinKind::Eq, Some(ConstVal::Int(a)), Some(ConstVal::Int(b))) == Some(ConstVal::Bool(a == b)),
        cf_fold(BinKind::Ne, Some(ConstVal::Int(a)), Some(ConstVal::Int(b))) == Some(ConstVal::Bool(a != b)),
        cf_fold(BinKind::Lt, Some(ConstVal::Int(a)), Some(ConstVal::Int(b))) == Some(ConstVal::Bool(a < b)),
        cf_fold(BinKind::Le, Some(ConstVal::Int(a)), Some(ConstVal::Int(b))) == Some(ConstVal::Bool(a <= b)),
        cf_fold(BinKind::Gt, Some(ConstVal::Int(a)), Some(ConstVal::Int(b))) == Some(ConstVal::Bool(a > b)),
        cf_fold(BinKind::Ge, Some(ConstVal::Int(a)), Some(ConstVal::Int(b))) == Some(ConstVal::Bool(a >= b)),
{
}

/// Law: on two string constants, the left operand `a` and the right operand `b`,
/// folding concatenates `a` then `b` for `+`, gives nothing for `-`, `*` and `/`,
/// and compares in code-point order (`seq_char_lt`).
pub proof fn law_fold_strs(a: Seq<char>, b: Seq<char>)
    ensures
        cf_fold(BinKind::Add, Some(ConstVal::Str(a)), Some(ConstVal::Str(b))) == Some(ConstVal::Str(a + b)),
        cf_fold(BinKind::Sub, Some(ConstVal::Str(a)), Some(ConstVal::Str(b))) is None,
        cf_fold(BinKind::Mul, Some(ConstVal::Str(a)), Some(ConstVal::Str(b))) is None,
        cf_fold(BinKind::Div, Some(ConstVal::Str(a)), Some(ConstVal::Str(b))) is None,
        cf_fold(BinKind::Eq, Some(ConstVal::Str(a)), Some(ConstVal::Str(b))) == Some(ConstVal::Bool(a == b)),
        cf_fold(BinKind::Ne, Some(ConstVal::Str(a)), Some(ConstVal::Str(b))) == Some(ConstVal::Bool(a != b)),
        cf_fold(BinKind::Lt, Some(ConstVal::Str(a)), Some(ConstVal::Str(b))) == Some(ConstVal::Bool(seq_char_lt(a, b))),
        cf_fold(BinKind::Le, Some(ConstVal::Str(a)), Some(ConstVal::Str(b)))
            == Some(ConstVal::Bool(seq_char_lt(a, b) || a == b)),
        cf_fold(BinKind::Gt, Some(ConstVal::Str(a)), Some(ConstVal::Str(b))) == Some(ConstVal::Bool(seq_char_lt(b, a))),
        cf_fold(BinKind::Ge, Some(ConstVal::Str(a)), Some(ConstVal::Str(b)))
            == Some(ConstVal::Bool(seq_char_lt(b, a) || a == b)),
{
}

/// Law: on two booleans or two nulls only `==` and `!=` fold, to the truth of
/// equality and of inequality.
pub proof fn law_fold_bools_and_nulls(a: bool, b: bool, k: BinKind)
    ensures
        cf_fold(k, Some(ConstVal::Bool(a)), Some(ConstVal::Bool(b))) == (if k == BinKind::Eq {
            Some(ConstVal::Bool(a == b))
        } else if k == BinKind::Ne {
            Some(ConstVal::Bool(a != b))
        } else {
            None
        }),
        cf_fold(k, Some(ConstVal::Null), Some(ConstVal::Null)) == (if k == BinKind::Eq {
            Some(ConstVal::Bool(true))
        } else if k == BinKind::Ne {
            Some(ConstVal::Bool(false))
        } else {
            None
        }),
{
}

/// The effect of one instruction on the known constants.
pub open spec fn cf_action(st: FoldMaps, op: Op, mu: Set<Slot>) -> FoldAction {
    match bin_parts(op) {
        Some((k, l, r, t)) => match cf_fold(k, cf_lookup(st, l), cf_lookup(st, r)) {
            Some(v) => FoldAction::Replace(t, v),
            None => FoldAction::Invalidate(t),
        },
        None => match op {
            Op::LoadConst { target, value } => FoldAction::Replace(target, value@),
            Op::LoadLocal { target, source } => {
                if !mu.contains(source) {
                    if st.locals.contains_key(source) {
                        FoldAction::Replace(target, st.locals[source])
                    } else {
                        FoldAction::Keep
                    }
                } else {
                    FoldAction::Invalidate(target)
                }
            },
            Op::StoreLocal { source, target } => {
                if !mu.contains(target) && st.regs.contains_key(source) {
                    FoldAction::SetLocal(target, Some(st.regs[source]))
                } else {
                    FoldAction::SetLocal(target, None)
                }
            },
            Op::Length { target, array } => match cf_lookup(st, array) {
                Some(ConstVal::Array(a)) => FoldAction::Replace(target, ConstVal::Int(a.len() as i64)),
                Some(ConstVal::Str(s)) => match str_len_value(s) {
                    Some(v) => FoldAction::Replace(target, v),
                    None => FoldAction::Invalidate(target),
                },
                _ => FoldAction::Invalidate(target),
            },
            Op::IGet { target, source, index } => match (cf_lookup(st, source), cf_lookup(st, index)) {
                (Some(ConstVal::Array(a)), Some(ConstVal::Int(i))) =>
                    if 0 <= i < a.len() { FoldAction::Replace(target, a[i as int]) } else { FoldAction::Invalidate(target) },
                _ => FoldAction::Invalidate(target),
            },
            Op::Inc { target } => FoldAction::Forget(target),
            Op::Dec { target } => FoldAction::Forget(target),
            Op::Call { target, .. } => FoldAction::Invalidate(target),
            Op::NewArray { target, .. } => FoldAction::Invalidate(target),
            Op::ISet { target, .. } => FoldAction::Invalidate(target),
            Op::MGet { target, .. } => FoldAction::Invalidate(target),
            _ => FoldAction::Keep,
        },
    }
}

/// Law: an indexed read of a known constant array at a known integer index folds
/// to the element at that index when the index is in range, and is forgotten
/// otherwise; the length of a known constant array folds to its number of elements.
pub proof fn law_fold_array_reads(st: FoldMaps, mu: Set<Slot>, target: Slot, source: Slot, index: Slot, a: Seq<ConstVal>, i: i64)
    requires
        cf_lookup(st, source) == Some(ConstVal::Array(a)),
    ensures
        cf_lookup(st, index) == Some(ConstVal::Int(i)) ==> cf_action(st, Op::IGet { target, source, index }, mu)
            == (if 0 <= i < a.len() { FoldAction::Replace(target, a[i as int]) } else { FoldAction::Invalidate(target) }),
        cf_action(st, Op::Length { target, array: source }, mu) == FoldAction::Replace(target, ConstVal::Int(a.len() as i64)),
{
}

/// Replacing the target by a known constant, or forgetting it when there is none.
pub open spec fn replace_or_forget(target: Slot, v: Option<ConstVal>) -> FoldAction {
    match v {
        Some(c) => FoldAction::Replace(target, c),
        None => FoldAction::Invalidate(target),
    }
}

/// Law: an instruction whose left operand `lhs` holds the integer `a` and whose
/// right operand `rhs` holds `b` folds to the mathematical result with `a` on the
/// left: `a + b`, `a - b`, `a * b` (when they fit), and the truth of `a == b`,
/// `a != b`, `a < b`, `a <= b`, `a > b`, `a >= b`.
pub proof fn law_fold_int_instructions(st: FoldMaps, mu: Set<Slot>, lhs: Slot, rhs: Slot, target: Slot, a: i64, b: i64)
    requires
        cf_lookup(st, lhs) == Some(ConstVal::Int(a)),
        cf_lookup(st, rhs) == Some(ConstVal::Int(b)),
    ensures
        cf_action(st, Op::Add { lhs, rhs, target }, mu) == replace_or_forget(target, int_const(a + b)),
        cf_action(st, Op::Sub { lhs, rhs, target }, mu) == replace_or_forget(target, int_const(a - b)),
        cf_action(st, Op::Mul { lhs, rhs, target }, mu) == replace_or_forget(target, int_const(a * b)),
        cf_action(st, Op::Eq { lhs, rhs, target }, mu) == FoldAction::Replace(target, ConstVal::Bool(a == b)),
        cf_action(st, Op::Ne { lhs, rhs, target }, mu) == FoldAction::Replace(target, ConstVal::Bool(a != b)),
        cf_action(st, Op::Lt { lhs, rhs, target }, mu) == FoldAction::Replace(target, ConstVal::Bool(a < b)),
        cf_action(st, Op::Le { lhs, rhs, target }, mu) == FoldAction::Replace(target, ConstVal::Bool(a <= b)),
        cf_action(st, Op::Gt { lhs, rhs, target }, mu) == FoldAction::Replace(target, ConstVal::Bool(a > b)),
        cf_action(st, Op::Ge { lhs, rhs, target }, mu) == FoldAction::Replace(target, ConstVal::Bool(a >= b)),
        b != 0 && 0 <= a && 0 < b ==> cf_action(st, Op::Div { lhs, rhs, target }, mu)
            == FoldAction::Replace(target, ConstVal::Int((a as int / b as int) as i64)),
{
    law_fold_ints(a, b);
    crate::ir::fold::law_int_div(a, b);
}

/// Law: an instruction whose left operand holds the string `a` and whose right
/// operand holds `b` compares them in code-point order with `a` on the left, and
/// `+` concatenates `a` then `b`.
pub proof fn law_fold_str_instructions(st: FoldMaps, mu: Set<Slot>, lhs: Slot, rhs: Slot, target: Slot, a: Seq<char>, b: Seq<char>)
    requires
        cf_lookup(st, lhs) == Some(ConstVal::Str(a)),
        cf_lookup(st, rhs) == Some(ConstVal::Str(b)),
    ensures
        cf_action(st, Op::Add { lhs, rhs, target }, mu) == FoldAction::Replace(target, ConstVal::Str(a + b)),
        cf_action(st, Op::Lt { lhs, rhs, target }, mu) == FoldAction::Replace(target, ConstVal::Bool(seq_char_lt(a, b))),
        cf_action(st, Op::Gt { lhs, rhs, target }, mu) == FoldAction::Replace(target, ConstVal::Bool(seq_char_lt(b, a))),
        cf_action(st, Op::Eq { lhs, rhs, target }, mu) == FoldAction::Replace(target, ConstVal::Bool(a == b)),
{
    law_fold_strs(a, b);
}

/// The known constants after an action.
pub open spec fn cf_apply(st: FoldMaps, a: FoldAction) -> FoldMaps {
    match a {
        FoldAction::Replace(s, v) => FoldMaps { regs: st.regs.insert(s, v), locals: st.locals },
        FoldAction::Invalidate(s) => FoldMaps { regs: st.regs.remove(s), locals: st.locals },
        FoldAction::Forget(s) => FoldMaps { regs: st.regs.remove(s), locals: st.locals.remove(s) },
        FoldAction::SetLocal(t, Some(v)) => FoldMaps { regs: st.regs, locals: st.locals.insert(t, v) },
        FoldAction::SetLocal(t, None) => FoldMaps { regs: st.regs, locals: st.locals.remove(t) },
        FoldAction::Keep => st,
    }
}

/// Whether the instruction starts a new region in which nothing is known.
pub open spec fn cf_boundary(op: Op) -> bool {
    match op {
        Op::Label { .. } | Op::Jump { .. } | Op::Return { .. } | Op::Halt => true,
        _ => false,
    }
}

/// Nothing known.
pub open spec fn no_consts() -> FoldMaps {
    FoldMaps { regs: Map::empty(), locals: Map::empty() }
}

/// The known constants on reaching instruction `op`.
pub open spec fn cf_entry(st: FoldMaps, op: Op) -> FoldMaps {
    if cf_boundary(op) { no_consts() } else { st }
}

/// The known constants after the first `n` instructions.
pub open spec fn cf_state(ops: Seq<Op>, mu: Set<Slot>, n: int) -> FoldMaps
    decreases n,
{
    if n <= 0 {
        no_consts()
    } else {
        let st = cf_entry(cf_state(ops, mu, n - 1), ops[n - 1]);
        cf_apply(st, cf_action(st, ops[n - 1], mu))
    }
}

/// The constant that replaces instruction `i`, if it is replaced.
pub open spec fn cf_rewrite(ops: Seq<Op>, i: int) -> Option<(Slot, ConstVal)> {
    let mu = cf_mutated(ops);
    let st = cf_entry(cf_state(ops, mu, i), ops[i]);
    match cf_action(st, ops[i], mu) {
        FoldAction::Replace(s, v) => match ops[i] {
            Op::LoadConst { target, .. } => if target == s { None } else { Some((s, v)) },
            _ => Some((s, v)),
        },
        _ => None,
    }
}

/// `new` is `old`, or, when a constant replaces it, a `LoadConst` of that constant.
pub open spec fn rewritten_as(new: Op, old: Op, rw: Option<(Slot, ConstVal)>) -> bool {
    match rw {
        None => new == old,
        Some((s, v)) => match new {
            Op::LoadConst { target, value } => target == s && value@ == v,
            _ => false,
        },
    }
}

/// An exec form of `FoldAction`.
enum Step {
    Replace(Slot, OpValue),
    Invalidate(Slot),
    Forget(Slot),
    SetLocal(Slot, Option<OpValue>),
    Keep,
}

spec fn step_view(s: Step) -> FoldAction {
    match s {
        Step::Replace(t, v) => FoldAction::Replace(t, v@),
        Step::Invalidate(t) => FoldAction::Invalidate(t),
        Step::Forget(t) => FoldAction::Forget(t),
        Step::SetLocal(t, Some(v)) => FoldAction::SetLocal(t, Some(v@)),
        Step::SetLocal(t, None) => FoldAction::SetLocal(t, None),
        Step::Keep => FoldAction::Keep,
    }
}

spec fn opt_view(o: Option<&OpValue>) -> Option<ConstVal> {
    match o {
        Some(v) => Some(v@),
        None => None,
    }
}

fn lookup<'a>(regs: &'a SlotMap<OpValue>, locals: &'a SlotMap<OpValue>, s: Slot) -> (r: Option<&'a OpValue>)
    ensures
        opt_view(r) == cf_lookup(FoldMaps { regs: regs.view(), locals: locals.view() }, s),
{
    match regs.get(s) {
        Some(v) => Some(v),
        None => locals.get(s),
    }
}

fn concat(a: &String, b: &String) -> (r: String)
    ensures
        r@ == a@ + b@,
{
    let mut s = a.clone();
    push_str(&mut s, b.as_str());
    s
}

fn cf_fold_exec(k: BinKind, l: Option<&OpValue>, r: Option<&OpValue>) -> (res: Option<OpValue>)
    ensures
        match res {
            Some(v) => cf_fold(k, opt_view(l), opt_view(r)) == Some(v@),
            None => cf_fold(k, opt_view(l), opt_view(r)) is None,
        },
{
    match (l, r) {
        (Some(OpValue::Int(a)), Some(OpValue::Int(b))) => {
            match k {
                BinKind::Add | BinKind::Sub | BinKind::Mul | BinKind::Div => {
                    match int_arith_exec(k, *a, *b) {
                        Some(x) => Some(OpValue::Int(x)),
                        None => None,
                    }
                },
                _ => Some(OpValue::Bool(int_cmp_exec(k, *a, *b))),
            }
        },
        (Some(OpValue::Str(a)), Some(OpValue::Str(b))) => {
            match k {
                BinKind::Add => Some(OpValue::Str(concat(a, b))),
                BinKind::Sub | BinKind::Mul | BinKind::Div => None,
                _ => Some(OpValue::Bool(str_cmp_exec(k, a, b))),
            }
        },
        (Some(OpValue::Bool(a)), Some(OpValue::Bool(b))) => {
            match k {
                BinKind::Eq => Some(OpValue::Bool(*a == *b)),
                BinKind::Ne => Some(OpValue::Bool(*a != *b)),
                _ => None,
            }
        },
        (Some(OpValue::Null), Some(OpValue::Null)) => {
            match k {
                BinKind::Eq => Some(OpValue::Bool(true)),
                BinKind::Ne => Some(OpValue::Bool(false)),
                _ => None,
            }
        },
        _ => None,
    }
}

fn cf_step(regs: &SlotMap<OpValue>, locals: &SlotMap<OpValue>, op: &Op, mutated: &SlotSet) -> (r: Step)
    ensures
        step_view(r) == cf_action(FoldMaps { regs: regs.view(), locals: locals.view() }, *op, mutated.view()),
{
    match bin_parts_of(op) {
        Some((k, l, r, t)) => {
            let lv = lookup(regs, locals, l);
            let rv = lookup(regs, locals, r);
            match cf_fold_exec(k, lv, rv) {
                Some(v) => Step::Replace(t, v),
                None => Step::Invalidate(t),
            }
        },
        None => match op {
            Op::LoadConst { target, value } => Step::Replace(*target, value.duplicate()),
            Op::LoadLocal { target, source } => {
                if !mutated.contains(*source) {
                    match locals.get(*source) {
                        Some(v) => Step::Replace(*target, v.duplicate()),
                        None => Step::Keep,
                    }
                } else {
                    Step::Invalidate(*target)
                }
            },
            Op::StoreLocal { source, target } => {
                if !mutated.contains(*target) {
                    match regs.get(*source) {
                        Some(v) => Step::SetLocal(*target, Some(v.duplicate())),
                        None => Step::SetLocal(*target, None),
                    }
                } else {
                    Step::SetLocal(*target, None)
                }
            },
            Op::Length { target, array } => match lookup(regs, locals, *array) {
                Some(OpValue::Array(a)) => {
                    proof { lemma_const_views_len(a@); }
                    Step::Replace(*target, OpValue::Int(a.len() as i64))
                },
                Some(OpValue::Str(s)) => match str_len_value_exec(s) {
                    Some(v) => Step::Replace(*target, v),
                    None => Step::Invalidate(*target),
                },
                _ => Step::Invalidate(*target),
            },
            Op::IGet { target, source, index } => match (lookup(regs, locals, *source), lookup(regs, locals, *index)) {
                (Some(OpValue::Array(a)), Some(OpValue::Int(i))) => {
                    proof { lemma_const_views_len(a@); }
                    if *i >= 0 && (*i as u64) < (a.len() as u64) {
                        let k = *i as usize;
                        proof { lemma_const_views_index(a@, k as int); }
                        Step::Replace(*target, a[k].duplicate())
                    } else {
                        Step::Invalidate(*target)
                    }
                },
                _ => Step::Invalidate(*target),
            },
            Op::Inc { target } => Step::Forget(*target),
            Op::Dec { target } => Step::Forget(*target),
            Op::Call { target, .. } => Step::Invalidate(*target),
            Op::NewArray { target, .. } => Step::Invalidate(*target),
            Op::ISet { target, .. } => Step::Invalidate(*target),
            Op::MGet { target, .. } => Step::Invalidate(*target),
            _ => Step::Keep,
        },
    }
}

/// The locals stored more than once or incremented or decremented.
pub fn mutated_locals(ops: &Vec<Op>) -> (m: SlotSet)
    ensures
        m.view() == cf_mutated(ops@),
{
    let mut seen = SlotSet::new();
    let mut m = SlotSet::new();
    let mut i: usize = 0;
    while i < ops.len()
        invariant
            i <= ops@.len(),
            forall|s: Slot| #[trigger] seen.view().contains(s) == (store_count(ops@.subrange(0, i as int), s) >= 1),
            forall|s: Slot| #[trigger] m.view().contains(s)
                == (store_count(ops@.subrange(0, i as int), s) > 1 || stepped(ops@.subrange(0, i as int), s)),
        decreases ops@.len() - i,
    {
        let ghost pre = ops@.subrange(0, i as int);
        let ghost next = ops@.subrange(0, i as int + 1);
        assert(next.drop_last() =~= pre);
        assert forall|s: Slot| #[trigger] stepped(next, s) == (stepped(pre, s) || (match ops@[i as int] {
            Op::Inc { target } => target == s,
            Op::Dec { target } => target == s,
            _ => false,
        })) by {
            if stepped(next, s) {
                let w = choose|w: int| 0 <= w < next.len() && (match #[trigger] next[w] {
                    Op::Inc { target } => target == s,
                    Op::Dec { target } => target == s,
                    _ => false,
                });
                if w < i { assert(pre[w] == next[w]); }
            }
            if stepped(pre, s) {
                let w = choose|w: int| 0 <= w < pre.len() && (match #[trigger] pre[w] {
                    Op::Inc { target } => target == s,
                    Op::Dec { target } => target == s,
                    _ => false,
                });
                assert(next[w] == pre[w]);
            }
            assert(next[i as int] == ops@[i as int]);
        }
        match &ops[i] {
            Op::StoreLocal { target, .. } => {
                if seen.contains(*target) {
                    m.insert(*target);
                } else {
                    seen.insert(*target);
                }
            },
            Op::Inc { target } | Op::Dec { target } => {
                m.insert(*target);
            },
            _ => {},
        }
        i += 1;
    }
    assert(ops@.subrange(0, i as int) =~= ops@);
    assert(m.view() =~= cf_mutated(ops@));
    m
}

pub struct ConstantFolding;

impl ConstantFolding {
    pub fn new() -> (r: Self) {
        ConstantFolding
    }

    /// Runs constant folding: every instruction whose result is a known constant
    /// becomes a `LoadConst` of it (`cf_rewrite`); the rest stay as they are.
    pub fn fold(&mut self, ops: &mut Vec<Op>) -> (changed: bool)
        ensures
            final(ops)@.len() == old(ops)@.len(),
            forall|i: int| 0 <= i < old(ops)@.len()
                ==> rewritten_as(#[trigger] final(ops)@[i], old(ops)@[i], cf_rewrite(old(ops)@, i)),
            changed == exists|i: int| 0 <= i < old(ops)@.len() && (#[trigger] cf_rewrite(old(ops)@, i)) is Some,
            !changed ==> final(ops)@ == old(ops)@,
    {
        let ghost orig = ops@;
        let mutated = mutated_locals(ops);
        let ghost mu = mutated.view();
        let mut regs = SlotMap::<OpValue>::new();
        let mut locals = SlotMap::<OpValue>::new();
        let mut changed = false;
        let n = ops.len();
        let mut i: usize = 0;
        while i < n
            invariant
                i <= n,
                n == orig.len(),
                ops@.len() == n,
                mu == cf_mutated(orig),
                mutated.view() == mu,
                (FoldMaps { regs: regs.view(), locals: locals.view() }) == cf_state(orig, mu, i as int),
                forall|j: int| i <= j < n ==> ops@[j] == orig[j],
                forall|j: int| 0 <= j < i ==> rewritten_as(#[trigger] ops@[j], orig[j], cf_rewrite(orig, j)),
                changed == exists|j: int| 0 <= j < i && (#[trigger] cf_rewrite(orig, j)) is Some,
            decreases n - i,
        {
            let boundary = match &ops[i] {
                Op::Label { .. } | Op::Jump { .. } | Op::Return { .. } | Op::Halt => true,
                _ => false,
            };
            if boundary {
                regs.clear();
                locals.clear();
            }
            let ghost st = FoldMaps { regs: regs.view(), locals: locals.view() };
            assert(st == cf_entry(cf_state(orig, mu, i as int), orig[i as int]));
            let step = cf_step(&regs, &locals, &ops[i], &mutated);
            let ghost prev_changed = changed;
            match step {
                Step::Replace(slot, value) => {
                    let same = match &ops[i] {
                        Op::LoadConst { target, .. } => *target == slot,
                        _ => false,
                    };
                    if !same {
                        ops.set(i, Op::LoadConst { target: slot, value: value.duplicate() });
                        changed = true;
                    }
                    regs.insert(slot, value);
                },
                Step::Invalidate(s) => {
                    regs.remove(s);
                },
                Step::Forget(s) => {
                    regs.remove(s);
                    locals.remove(s);
                },
                Step::SetLocal(t, Some(v)) => {
                    locals.insert(t, v);
                },
                Step::SetLocal(t, None) => {
                    locals.remove(t);
                },
                Step::Keep => {},
            }
            proof {
                assert((FoldMaps { regs: regs.view(), locals: locals.view() }) =~= cf_state(orig, mu, i as int + 1));
                assert(changed == (prev_changed || cf_rewrite(orig, i as int) is Some));
                assert forall|j: int| 0 <= j < i + 1 implies rewritten_as(#[trigger] ops@[j], orig[j], cf_rewrite(orig, j)) by {
                }
                if changed {
                    if !prev_changed {
                        assert(cf_rewrite(orig, i as int) is Some);
                    }
                } else {
                    assert forall|j: int| 0 <= j < i + 1 implies !(#[trigger] cf_rewrite(orig, j) is Some) by {
                    }
                }
            }
            i += 1;
        }
        proof {
            if !changed {
                assert forall|j: int| 0 <= j < orig.len() implies ops@[j] == orig[j] by {
                    assert(rewritten_as(ops@[j], orig[j], cf_rewrite(orig, j)));
                    assert(!(cf_rewrite(orig, j) is Some));
                }
                assert(ops@ =~= orig);
            }
        }
        changed
    }
}

/// What constant folding makes of `a`: `b`, reporting `changed`.
pub open spec fn folded(a: Seq<Op>, b: Seq<Op>, changed: bool) -> bool {
    &&& b.len() == a.len()
    &&& forall|i: int| 0 <= i < a.len() ==> rewritten_as(#[trigger] b[i], a[i], cf_rewrite(a, i))
    &&& changed == exists|i: int| 0 <= i < a.len() && (#[trigger] cf_rewrite(a, i)) is Some
    &&& !changed ==> b == a
}

impl Pass for ConstantFolding {
    open spec fn effect(&self, before: Seq<Op>, after: Seq<Op>, changed: bool) -> bool {
        folded(before, after, changed)
    }

    fn name(&self) -> &'static str {
        "constant_folding"
    }

    fn run(&mut self, ops: &mut Vec<Op>) -> (changed: bool)
        ensures
            final(ops)@.len() == old(ops)@.len(),
            forall|i: int| 0 <= i < old(ops)@.len()
                ==> rewritten_as(#[trigger] final(ops)@[i], old(ops)@[i], cf_rewrite(old(ops)@, i)),
            changed == exists|i: int| 0 <= i < old(ops)@.len() && (#[trigger] cf_rewrite(old(ops)@, i)) is Some,
            !changed ==> final(ops)@ == old(ops)@,
    {
        let ghost o = ops@;
        let c = self.fold(ops);
        proof { lemma_cf_slots(o, ops@); }
        c
    }
}

/// The target of a binary instruction is the slot it defines.
pub proof fn lemma_bin_parts_defines(op: Op)
    ensures
        bin_parts(op) matches Some((k, l, r, t)) ==> op_defines(op) == Some(t),
{
}

/// A folded instruction is replaced by a load into the slot it defines.
proof fn lemma_cf_rewrite_target(ops: Seq<Op>, i: int)
    requires
        0 <= i < ops.len(),
        cf_rewrite(ops, i) is Some,
    ensures
        op_defines(ops[i]) == Some((cf_rewrite(ops, i)->0).0),
{
    lemma_bin_parts_defines(ops[i]);
}

/// Folding names no slot that the list did not name.
proof fn lemma_cf_slots(old: Seq<Op>, new: Seq<Op>)
    requires
        new.len() == old.len(),
        forall|i: int| 0 <= i < old.len() ==> rewritten_as(#[trigger] new[i], old[i], cf_rewrite(old, i)),
    ensures
        slots_within(new, old),
{
    assert forall|i: int, j: int| 0 <= i < new.len() && 0 <= j < op_slots(new[i]).len()
        implies mentions(old, #[trigger] op_slots(new[i])[j]) by {
        assert(rewritten_as(new[i], old[i], cf_rewrite(old, i)));
        match cf_rewrite(old, i) {
            None => {
                lemma_slots_of_member(old, i, j);
            },
            Some((s, v)) => {
                lemma_cf_rewrite_target(old, i);
                let k = op_uses(old[i]).len() as int;
                assert(op_slots(new[i]) =~= seq![s]);
                assert(op_slots(old[i])[k] == s);
                lemma_slots_of_member(old, i, k);
            },
        }
    }
    lemma_slots_within(new, old);
}

} // verus!
