//! Sparse conditional constant propagation: a fixpoint over a three-level lattice
//! per slot (unknown, one constant, overdefined), followed by a rewrite of every
//! instruction whose target the fixpoint proves constant.
use vstd::prelude::*;
use crate::ir::slot::Slot;
use crate::ir::op::Op;
use crate::ir::value::{OpValue, ConstVal, lemma_const_views_len};
use crate::ir::slotmap::{SlotMap, SlotSet};
use crate::ir::fold::{
    BinKind, bin_parts, bin_parts_of, int_arith, int_cmp, str_cmp, is_arith, int_arith_exec,
    int_cmp_exec, str_cmp_exec, str_len_value, str_len_value_exec,
};
use crate::ir::optimization::pass::{Pass, slots_within, lemma_slots_within, lemma_slots_of_member};
use crate::text::seq_char_lt;
use crate::ir::optimization::passes::constant_folding::{rewritten_as, lemma_bin_parts_defines, cf_fold, int_const, law_fold_ints, law_fold_strs};
use crate::ir::op::{op_defines, op_uses};
use crate::ir::meta::{mentions, op_slots};

verus! {

/// A lattice value above "unknown": one constant, or overdefined.
pub enum LatVal {
    Const(ConstVal),
    Over,
}

/// The exec form of a lattice value.
pub enum Lattice {
    Const(OpValue),
    Over,
}

impl View for Lattice {
    type V = LatVal;

    open spec fn view(&self) -> LatVal {
        match self {
            Lattice::Const(v) => LatVal::Const(v@),
            Lattice::Over => LatVal::Over,
        }
    }
}

/// The slots that the pass treats as mutable locals: targets of `StoreLocal`,
/// `ISet`, `Inc` and `Dec`.
pub open spec fn sccp_mutated(ops: Seq<Op>) -> Set<Slot> {
    Set::new(|s: Slot| exists|i: int| 0 <= i < ops.len() && (match #[trigger] ops[i] {
        Op::StoreLocal { target, .. } => target == s,
        Op::ISet { target, .. } => target == s,
        Op::Inc { target } => target == s,
        Op::Dec { target } => target == s,
        _ => false,
    }))
}

/// The lattice value of a slot; `None` is "unknown".
pub open spec fn lat_get(m: Map<Slot, LatVal>, s: Slot) -> Option<LatVal> {
    if m.contains_key(s) { Some(m[s]) } else { None }
}

/// Raises the value of `s` to `v`: an unknown slot takes any value, a constant
/// slot takes another constant or overdefined, an overdefined slot stays so.
/// Also says whether anything changed.
pub open spec fn lat_set(m: Map<Slot, LatVal>, s: Slot, v: Option<LatVal>) -> (Map<Slot, LatVal>, bool) {
    match v {
        None => (m, false),
        Some(LatVal::Const(c)) => {
            if !m.contains_key(s) {
                (m.insert(s, LatVal::Const(c)), true)
            } else {
                match m[s] {
                    LatVal::Const(old) => if old == c { (m, false) } else { (m.insert(s, LatVal::Const(c)), true) },
                    LatVal::Over => (m, false),
                }
            }
        },
        Some(LatVal::Over) => {
            if m.contains_key(s) && m[s] == LatVal::Over {
                (m, false)
            } else {
                (m.insert(s, LatVal::Over), true)
            }
        },
    }
}

/// The value of a binary operator on two constants, as this pass evaluates it.
pub open spec fn sccp_bin(k: BinKind, a: ConstVal, b: ConstVal) -> Option<ConstVal> {
    match (a, b) {
        (ConstVal::Int(x), ConstVal::Int(y)) => {
            if is_arith(k) {
                match int_arith(k, x, y) {
                    Some(z) => Some(ConstVal::Int(z)),
                    None => None,
                }
            } else {
                Some(ConstVal::Bool(int_cmp(k, x, y)))
            }
        },
        (ConstVal::Str(x), ConstVal::Str(y)) => {
            if is_arith(k) { None } else { Some(ConstVal::Bool(str_cmp(k, x, y))) }
        },
        _ => None,
    }
}

/// Law: the pass evaluates `!=` to the negation of what it evaluates `==` to, and to
/// nothing where `==` evaluates to nothing.
pub proof fn law_sccp_ne_negates_eq(a: ConstVal, b: ConstVal)
    ensures
        sccp_bin(BinKind::Ne, a, b) == (match sccp_bin(BinKind::Eq, a, b) {
            Some(ConstVal::Bool(x)) => Some(ConstVal::Bool(!x)),
            other => other,
        }),
{
}

/// Law: on two integers the pass evaluates every operator as constant folding
/// does; on two strings it compares as constant folding does, in code-point order
/// with the left operand first, and evaluates no arithmetic.
pub proof fn law_sccp_agrees_with_folding(k: BinKind, x: i64, y: i64, s: Seq<char>, t: Seq<char>)
    ensures
        sccp_bin(k, ConstVal::Int(x), ConstVal::Int(y)) == cf_fold(k, Some(ConstVal::Int(x)), Some(ConstVal::Int(y))),
        !is_arith(k) ==> sccp_bin(k, ConstVal::Str(s), ConstVal::Str(t))
            == cf_fold(k, Some(ConstVal::Str(s)), Some(ConstVal::Str(t))),
        is_arith(k) ==> sccp_bin(k, ConstVal::Str(s), ConstVal::Str(t)) is None,
        sccp_bin(BinKind::Lt, ConstVal::Str(s), ConstVal::Str(t)) == Some(ConstVal::Bool(seq_char_lt(s, t))),
        sccp_bin(BinKind::Sub, ConstVal::Int(x), ConstVal::Int(y)) == int_const(x - y),
        sccp_bin(BinKind::Lt, ConstVal::Int(x), ConstVal::Int(y)) == Some(ConstVal::Bool(x < y)),
{
    law_fold_ints(x, y);
    law_fold_strs(s, t);
}

/// The target of an instruction the pass evaluates (binary, `Not`, `Length`).
pub open spec fn eval_target(op: Op) -> Option<Slot> {
    match bin_parts(op) {
        Some((_, _, _, t)) => Some(t),
        None => match op {
            Op::Not { target, .. } => Some(target),
            Op::Length { target, .. } => Some(target),
            _ => None,
        },
    }
}

/// The constant an evaluable instruction yields under the lattice, if known.
pub open spec fn sccp_eval(m: Map<Slot, LatVal>, op: Op) -> Option<ConstVal> {
    match bin_parts(op) {
        Some((k, l, r, _)) => match (lat_get(m, l), lat_get(m, r)) {
            (Some(LatVal::Const(a)), Some(LatVal::Const(b))) => sccp_bin(k, a, b),
            _ => None,
        },
        None => match op {
            Op::Not { source, .. } => match lat_get(m, source) {
                Some(LatVal::Const(ConstVal::Bool(b))) => Some(ConstVal::Bool(!b)),
                _ => None,
            },
            Op::Length { array, .. } => match lat_get(m, array) {
                Some(LatVal::Const(ConstVal::Str(s))) => str_len_value(s),
                Some(LatVal::Const(ConstVal::Array(a))) => Some(ConstVal::Int(a.len() as i64)),
                _ => None,
            },
            _ => None,
        },
    }
}

/// Law: with its operand known constant, a negation evaluates to the opposite
/// boolean, and a length to the number of elements of an array or the number of
/// UTF-8 bytes of a string (when that fits in an `i64`).
pub proof fn law_sccp_unary(m: Map<Slot, LatVal>, src: Slot, target: Slot, b: bool, a: Seq<ConstVal>, s: Seq<char>)
    ensures
        lat_get(m, src) == Some(LatVal::Const(ConstVal::Bool(b)))
            ==> sccp_eval(m, Op::Not { source: src, target }) == Some(ConstVal::Bool(!b)),
        lat_get(m, src) == Some(LatVal::Const(ConstVal::Array(a)))
            ==> sccp_eval(m, Op::Length { target, array: src }) == Some(ConstVal::Int(a.len() as i64)),
        lat_get(m, src) == Some(LatVal::Const(ConstVal::Str(s)))
            ==> sccp_eval(m, Op::Length { target, array: src }) == int_const(vstd::utf8::encode_utf8(s).len() as int),
{
}

/// Law: with its left operand `lhs` known to hold the integer `a` and its right
/// operand `rhs` the integer `b`, an instruction evaluates to the mathematical
/// result with `a` on the left; with strings `s` and `t`, comparisons follow
/// code-point order with `s` on the left.
pub proof fn law_sccp_instructions(m: Map<Slot, LatVal>, lhs: Slot, rhs: Slot, target: Slot, a: i64, b: i64, s: Seq<char>, t: Seq<char>)
    ensures
        lat_get(m, lhs) == Some(LatVal::Const(ConstVal::Int(a))) && lat_get(m, rhs) == Some(LatVal::Const(ConstVal::Int(b))) ==> {
            &&& sccp_eval(m, Op::Add { lhs, rhs, target }) == int_const(a + b)
            &&& sccp_eval(m, Op::Sub { lhs, rhs, target }) == int_const(a - b)
            &&& sccp_eval(m, Op::Mul { lhs, rhs, target }) == int_const(a * b)
            &&& sccp_eval(m, Op::Eq { lhs, rhs, target }) == Some(ConstVal::Bool(a == b))
            &&& sccp_eval(m, Op::Ne { lhs, rhs, target }) == Some(ConstVal::Bool(a != b))
            &&& sccp_eval(m, Op::Lt { lhs, rhs, target }) == Some(ConstVal::Bool(a < b))
            &&& sccp_eval(m, Op::Le { lhs, rhs, target }) == Some(ConstVal::Bool(a <= b))
            &&& sccp_eval(m, Op::Gt { lhs, rhs, target }) == Some(ConstVal::Bool(a > b))
            &&& sccp_eval(m, Op::Ge { lhs, rhs, target }) == Some(ConstVal::Bool(a >= b))
        },
        lat_get(m, lhs) == Some(LatVal::Const(ConstVal::Str(s))) && lat_get(m, rhs) == Some(LatVal::Const(ConstVal::Str(t))) ==> {
            &&& sccp_eval(m, Op::Lt { lhs, rhs, target }) == Some(ConstVal::Bool(seq_char_lt(s, t)))
            &&& sccp_eval(m, Op::Le { lhs, rhs, target }) == Some(ConstVal::Bool(seq_char_lt(s, t) || s == t))
            &&& sccp_eval(m, Op::Gt { lhs, rhs, target }) == Some(ConstVal::Bool(seq_char_lt(t, s)))
            &&& sccp_eval(m, Op::Ge { lhs, rhs, target }) == Some(ConstVal::Bool(seq_char_lt(t, s) || s == t))
            &&& sccp_eval(m, Op::Eq { lhs, rhs, target }) == Some(ConstVal::Bool(s == t))
            &&& sccp_eval(m, Op::Add { lhs, rhs, target }) is None
        },
{
    law_sccp_agrees_with_folding(BinKind::Lt, a, b, s, t);
    law_fold_ints(a, b);
    law_fold_strs(s, t);
}

/// Whether an operand of an evaluable instruction is overdefined.
pub open spec fn dep_over(m: Map<Slot, LatVal>, op: Op) -> bool {
    match bin_parts(op) {
        Some((_, l, r, _)) => lat_get(m, l) == Some(LatVal::Over) || lat_get(m, r) == Some(LatVal::Over),
        None => match op {
            Op::Not { source, .. } => lat_get(m, source) == Some(LatVal::Over),
            Op::Length { array, .. } => lat_get(m, array) == Some(LatVal::Over),
            _ => false,
        },
    }
}

/// One instruction's update of the lattice, and whether it changed anything.
pub open spec fn sccp_step(m: Map<Slot, LatVal>, mu: Set<Slot>, op: Op) -> (Map<Slot, LatVal>, bool) {
    match op {
        Op::LoadConst { target, value } => lat_set(m, target, Some(LatVal::Const(value@))),
        Op::LoadLocal { target, source } => {
            if !mu.contains(source) {
                match lat_get(m, source) {
                    Some(v) => lat_set(m, target, Some(v)),
                    None => (m, false),
                }
            } else {
                lat_set(m, target, Some(LatVal::Over))
            }
        },
        Op::StoreLocal { target, .. } => lat_set(m, target, Some(LatVal::Over)),
        Op::Call { target, .. } => lat_set(m, target, Some(LatVal::Over)),
        Op::NewArray { target, .. } => lat_set(m, target, Some(LatVal::Over)),
        Op::ISet { target, .. } => lat_set(m, target, Some(LatVal::Over)),
        Op::MGet { target, .. } => lat_set(m, target, Some(LatVal::Over)),
        _ => match eval_target(op) {
            Some(t) => match sccp_eval(m, op) {
                Some(v) => lat_set(m, t, Some(LatVal::Const(v))),
                None => if dep_over(m, op) { lat_set(m, t, Some(LatVal::Over)) } else { (m, false) },
            },
            None => (m, false),
        },
    }
}

/// A sweep over the first `n` instructions from lattice `m`.
pub open spec fn sweep(ops: Seq<Op>, mu: Set<Slot>, m: Map<Slot, LatVal>, n: int) -> (Map<Slot, LatVal>, bool)
    decreases n,
{
    if n <= 0 {
        (m, false)
    } else {
        let (m1, w1) = sweep(ops, mu, m, n - 1);
        let (m2, w2) = sccp_step(m1, mu, ops[n - 1]);
        (m2, w1 || w2)
    }
}

/// The lattice after `k` rounds, and whether the last round changed it; rounds
/// stop once one changes nothing.
pub open spec fn rounds(ops: Seq<Op>, mu: Set<Slot>, k: nat) -> (Map<Slot, LatVal>, bool)
    decreases k,
{
    if k == 0 {
        (Map::empty(), true)
    } else {
        let (m, w) = rounds(ops, mu, (k - 1) as nat);
        if w { sweep(ops, mu, m, ops.len() as int) } else { (m, false) }
    }
}

/// The most rounds the pass runs.
pub open spec fn max_rounds() -> nat {
    1000
}

/// The lattice the pass computes.
pub open spec fn sccp_lattice(ops: Seq<Op>) -> Map<Slot, LatVal> {
    rounds(ops, sccp_mutated(ops), max_rounds()).0
}

/// The constant that replaces instruction `i`, if any: an evaluable instruction
/// whose target is constant, or a `LoadLocal` whose source is constant.
pub open spec fn sccp_rewrite(ops: Seq<Op>, i: int) -> Option<(Slot, ConstVal)> {
    let m = sccp_lattice(ops);
    match ops[i] {
        Op::LoadLocal { target, source } => match lat_get(m, source) {
            Some(LatVal::Const(v)) => Some((target, v)),
            _ => None,
        },
        _ => match eval_target(ops[i]) {
            Some(t) => match lat_get(m, t) {
                Some(LatVal::Const(v)) => Some((t, v)),
                _ => None,
            },
            None => None,
        },
    }
}

proof fn lemma_rounds_stop(ops: Seq<Op>, mu: Set<Slot>, k: nat, j: nat)
    requires
        k <= j,
        !rounds(ops, mu, k).1,
    ensures
        rounds(ops, mu, j) == rounds(ops, mu, k),
    decreases j - k,
{
    if j > k {
        lemma_rounds_stop(ops, mu, k, (j - 1) as nat);
    }
}

fn same_value(a: &OpValue, b: &OpValue) -> (r: bool)
    ensures
        r == (a@ == b@),
{
    a.same_as(b)
}

fn lat_get_exec(lat: &SlotMap<Lattice>, s: Slot) -> (r: Option<&Lattice>)
    ensures
        match r {
            Some(v) => lat_get(lat.view(), s) == Some(v@),
            None => lat_get(lat.view(), s) is None,
        },
{
    lat.get(s)
}

fn lat_set_exec(lat: &mut SlotMap<Lattice>, s: Slot, v: Option<Lattice>) -> (changed: bool)
    ensures
        (final(lat).view(), changed) == lat_set(old(lat).view(), s,
            match v { Some(x) => Some(x@), None => None }),
{
    match v {
        None => false,
        Some(Lattice::Const(c)) => {
            let action = match lat.get(s) {
                None => 1u8,
                Some(Lattice::Const(old)) => if same_value(old, &c) { 0u8 } else { 1u8 },
                Some(Lattice::Over) => 0u8,
            };
            if action == 1 {
                lat.insert(s, Lattice::Const(c));
                true
            } else {
                false
            }
        },
        Some(Lattice::Over) => {
            let already = match lat.get(s) {
                Some(Lattice::Over) => true,
                _ => false,
            };
            if already {
                false
            } else {
                lat.insert(s, Lattice::Over);
                true
            }
        },
    }
}

fn sccp_bin_exec(k: BinKind, a: &OpValue, b: &OpValue) -> (r: Option<OpValue>)
    ensures
        match r {
            Some(v) => sccp_bin(k, a@, b@) == Some(v@),
            None => sccp_bin(k, a@, b@) is None,
        },
{
    match (a, b) {
        (OpValue::Int(x), OpValue::Int(y)) => match k {
            BinKind::Add | BinKind::Sub | BinKind::Mul | BinKind::Div => match int_arith_exec(k, *x, *y) {
                Some(z) => Some(OpValue::Int(z)),
                None => None,
            },
            _ => Some(OpValue::Bool(int_cmp_exec(k, *x, *y))),
        },
        (OpValue::Str(x), OpValue::Str(y)) => match k {
            BinKind::Add | BinKind::Sub | BinKind::Mul | BinKind::Div => None,
            _ => Some(OpValue::Bool(str_cmp_exec(k, x, y))),
        },
        _ => None,
    }
}

fn sccp_eval_exec(lat: &SlotMap<Lattice>, op: &Op) -> (r: Option<OpValue>)
    ensures
        match r {
            Some(v) => sccp_eval(lat.view(), *op) == Some(v@),
            None => sccp_eval(lat.view(), *op) is None,
        },
{
    match bin_parts_of(op) {
        Some((k, l, r, _)) => match (lat_get_exec(lat, l), lat_get_exec(lat, r)) {
            (Some(Lattice::Const(a)), Some(Lattice::Const(b))) => sccp_bin_exec(k, a, b),
            _ => None,
        },
        None => match op {
            Op::Not { source, .. } => match lat_get_exec(lat, *source) {
                Some(Lattice::Const(OpValue::Bool(b))) => Some(OpValue::Bool(!*b)),
                _ => None,
            },
            Op::Length { array, .. } => match lat_get_exec(lat, *array) {
                Some(Lattice::Const(OpValue::Str(s))) => str_len_value_exec(s),
                Some(Lattice::Const(OpValue::Array(a))) => {
                    proof { lemma_const_views_len(a@); }
                    Some(OpValue::Int(a.len() as i64))
                },
                _ => None,
            },
            _ => None,
        },
    }
}

fn is_over(lat: &SlotMap<Lattice>, s: Slot) -> (r: bool)
    ensures
        r == (lat_get(lat.view(), s) == Some(LatVal::Over)),
{
    match lat_get_exec(lat, s) {
        Some(Lattice::Over) => true,
        _ => false,
    }
}

fn dep_over_exec(lat: &SlotMap<Lattice>, op: &Op) -> (r: bool)
    ensures
        r == dep_over(lat.view(), *op),
{
    match bin_parts_of(op) {
        Some((_, l, r, _)) => is_over(lat, l) || is_over(lat, r),
        None => match op {
            Op::Not { source, .. } => is_over(lat, *source),
            Op::Length { array, .. } => is_over(lat, *array),
            _ => false,
        },
    }
}

fn eval_target_of(op: &Op) -> (r: Option<Slot>)
    ensures
        r == eval_target(*op),
{
    match bin_parts_of(op) {
        Some((_, _, _, t)) => Some(t),
        None => match op {
            Op::Not { target, .. } => Some(*target),
            Op::Length { target, .. } => Some(*target),
            _ => None,
        },
    }
}

fn dup_lattice(v: &Lattice) -> (r: Lattice)
    ensures
        r@ == v@,
{
    match v {
        Lattice::Const(c) => Lattice::Const(c.duplicate()),
        Lattice::Over => Lattice::Over,
    }
}

fn sccp_step_exec(lat: &mut SlotMap<Lattice>, mu: &SlotSet, op: &Op) -> (changed: bool)
    ensures
        (final(lat).view(), changed) == sccp_step(old(lat).view(), mu.view(), *op),
{
    match op {
        Op::LoadConst { target, value } => lat_set_exec(lat, *target, Some(Lattice::Const(value.duplicate()))),
        Op::LoadLocal { target, source } => {
            if !mu.contains(*source) {
                let v = match lat_get_exec(lat, *source) {
                    Some(x) => Some(dup_lattice(x)),
                    None => None,
                };
                match v {
                    Some(x) => lat_set_exec(lat, *target, Some(x)),
                    None => false,
                }
            } else {
                lat_set_exec(lat, *target, Some(Lattice::Over))
            }
        },
        Op::StoreLocal { target, .. } => lat_set_exec(lat, *target, Some(Lattice::Over)),
        Op::Call { target, .. } => lat_set_exec(lat, *target, Some(Lattice::Over)),
        Op::NewArray { target, .. } => lat_set_exec(lat, *target, Some(Lattice::Over)),
        Op::ISet { target, .. } => lat_set_exec(lat, *target, Some(Lattice::Over)),
        Op::MGet { target, .. } => lat_set_exec(lat, *target, Some(Lattice::Over)),
        _ => match eval_target_of(op) {
            Some(t) => match sccp_eval_exec(lat, op) {
                Some(v) => lat_set_exec(lat, t, Some(Lattice::Const(v))),
                None => if dep_over_exec(lat, op) { lat_set_exec(lat, t, Some(Lattice::Over)) } else { false },
            },
            None => false,
        },
    }
}

fn sccp_mutated_exec(ops: &Vec<Op>) -> (m: SlotSet)
    ensures
        m.view() == sccp_mutated(ops@),
{
    let mut m = SlotSet::new();
    let mut i: usize = 0;
    while i < ops.len()
        invariant
            i <= ops@.len(),
            forall|s: Slot| #[trigger] m.view().contains(s) == exists|j: int| 0 <= j < i && (match #[trigger] ops@[j] {
                Op::StoreLocal { target, .. } => target == s,
                Op::ISet { target, .. } => target == s,
                Op::Inc { target } => target == s,
                Op::Dec { target } => target == s,
                _ => false,
            }),
        decreases ops@.len() - i,
    {
        match &ops[i] {
            Op::StoreLocal { target, .. } | Op::ISet { target, .. } | Op::Inc { target } | Op::Dec { target } => {
                m.insert(*target);
            },
            _ => {},
        }
        proof {
            assert forall|s: Slot| #[trigger] m.view().contains(s) == exists|j: int| 0 <= j < i + 1 && (match #[trigger] ops@[j] {
                Op::StoreLocal { target, .. } => target == s,
                Op::ISet { target, .. } => target == s,
                Op::Inc { target } => target == s,
                Op::Dec { target } => target == s,
                _ => false,
            }) by {
                if m.view().contains(s) {
                    let hit = match ops@[i as int] {
                        Op::StoreLocal { target, .. } => target == s,
                        Op::ISet { target, .. } => target == s,
                        Op::Inc { target } => target == s,
                        Op::Dec { target } => target == s,
                        _ => false,
                    };
                    if hit {
                        assert(0 <= i < i + 1);
                    }
                }
            }
        }
        i += 1;
    }
    assert(m.view() =~= sccp_mutated(ops@));
    m
}

pub struct SparseConditionalConstantProp;

impl SparseConditionalConstantProp {
    pub fn new() -> (r: Self) {
        SparseConditionalConstantProp
    }

    fn sweep_exec(ops: &Vec<Op>, mu: &SlotSet, lat: &mut SlotMap<Lattice>) -> (work: bool)
        ensures
            (final(lat).view(), work) == sweep(ops@, mu.view(), old(lat).view(), ops@.len() as int),
    {
        let mut work = false;
        let mut i: usize = 0;
        while i < ops.len()
            invariant
                i <= ops@.len(),
                (lat.view(), work) == sweep(ops@, mu.view(), old(lat).view(), i as int),
            decreases ops@.len() - i,
        {
            let c = sccp_step_exec(lat, mu, &ops[i]);
            if c {
                work = true;
            }
            i += 1;
        }
        work
    }

    /// Runs the pass: computes `sccp_lattice` and replaces each instruction that
    /// `sccp_rewrite` names by a `LoadConst`.
    pub fn propagate(&mut self, ops: &mut Vec<Op>) -> (changed: bool)
        ensures
            final(ops)@.len() == old(ops)@.len(),
            forall|i: int| 0 <= i < old(ops)@.len()
                ==> rewritten_as(#[trigger] final(ops)@[i], old(ops)@[i], sccp_rewrite(old(ops)@, i)),
            changed == exists|i: int| 0 <= i < old(ops)@.len() && (#[trigger] sccp_rewrite(old(ops)@, i)) is Some,
            !changed ==> final(ops)@ == old(ops)@,
    {
        let ghost orig = ops@;
        let mu = sccp_mutated_exec(ops);
        let mut lat: SlotMap<Lattice> = SlotMap::new();
        let mut work = true;
        let mut iter: usize = 0;
        assert(lat.view() =~= rounds(orig, mu.view(), 0).0);
        while work && iter < 1000
            invariant
                iter <= 1000,
                ops@ == orig,
                mu.view() == sccp_mutated(orig),
                (lat.view(), work) == rounds(orig, mu.view(), iter as nat),
            decreases 1000 - iter,
        {
            iter += 1;
            work = Self::sweep_exec(ops, &mu, &mut lat);
        }
        proof {
            if !work {
                lemma_rounds_stop(orig, mu.view(), iter as nat, max_rounds());
            }
        }
        let ghost m = lat.view();
        assert(m == sccp_lattice(orig));
        let mut changed = false;
        let n = ops.len();
        let mut i: usize = 0;
        while i < n
            invariant
                i <= n,
                n == orig.len(),
                ops@.len() == n,
                lat.view() == sccp_lattice(orig),
                forall|j: int| i <= j < n ==> ops@[j] == orig[j],
                forall|j: int| 0 <= j < i ==> rewritten_as(#[trigger] ops@[j], orig[j], sccp_rewrite(orig, j)),
                changed == exists|j: int| 0 <= j < i && (#[trigger] sccp_rewrite(orig, j)) is Some,
            decreases n - i,
        {
            let key = match &ops[i] {
                Op::LoadLocal { target, source } => Some((*target, *source)),
                _ => match eval_target_of(&ops[i]) {
                    Some(t) => Some((t, t)),
                    None => None,
                },
            };
            let ghost prev = changed;
            match key {
                Some((t, s)) => {
                    let v = match lat_get_exec(&lat, s) {
                        Some(Lattice::Const(c)) => Some(c.duplicate()),
                        _ => None,
                    };
                    match v {
                        Some(c) => {
                            ops.set(i, Op::LoadConst { target: t, value: c });
                            changed = true;
                        },
                        None => {},
                    }
                },
                None => {},
            }
            proof {
                assert forall|j: int| 0 <= j < i + 1 implies rewritten_as(#[trigger] ops@[j], orig[j], sccp_rewrite(orig, j)) by {}
                if changed && !prev {
                    assert(sccp_rewrite(orig, i as int) is Some);
                }
                if !changed {
                    assert forall|j: int| 0 <= j < i + 1 implies !(#[trigger] sccp_rewrite(orig, j) is Some) by {}
                }
            }
            i += 1;
        }
        proof {
            if !changed {
                assert forall|j: int| 0 <= j < orig.len() implies ops@[j] == orig[j] by {
                    assert(rewritten_as(ops@[j], orig[j], sccp_rewrite(orig, j)));
                    assert(!(sccp_rewrite(orig, j) is Some));
                }
                assert(ops@ =~= orig);
            }
        }
        changed
    }
}

/// What sparse conditional constant propagation makes of `a`.
pub open spec fn sccp_done(a: Seq<Op>, b: Seq<Op>, changed: bool) -> bool {
    &&& b.len() == a.len()
    &&& forall|i: int| 0 <= i < a.len() ==> rewritten_as(#[trigger] b[i], a[i], sccp_rewrite(a, i))
    &&& changed == exists|i: int| 0 <= i < a.len() && (#[trigger] sccp_rewrite(a, i)) is Some
    &&& !changed ==> b == a
}

impl Pass for SparseConditionalConstantProp {
    open spec fn effect(&self, before: Seq<Op>, after: Seq<Op>, changed: bool) -> bool {
        sccp_done(before, after, changed)
    }

    fn name(&self) -> &'static str {
        "sccp"
    }

    fn run(&mut self, ops: &mut Vec<Op>) -> (changed: bool)
        ensures
            final(ops)@.len() == old(ops)@.len(),
            forall|i: int| 0 <= i < old(ops)@.len()
                ==> rewritten_as(#[trigger] final(ops)@[i], old(ops)@[i], sccp_rewrite(old(ops)@, i)),
            changed == exists|i: int| 0 <= i < old(ops)@.len() && (#[trigger] sccp_rewrite(old(ops)@, i)) is Some,
            !changed ==> final(ops)@ == old(ops)@,
    {
        let ghost o = ops@;
        let c = self.propagate(ops);
        proof { lemma_sccp_slots(o, ops@); }
        c
    }
}

/// A rewritten instruction is replaced by a load into the slot it defines.
proof fn lemma_sccp_rewrite_target(ops: Seq<Op>, i: int)
    requires
        0 <= i < ops.len(),
        sccp_rewrite(ops, i) is Some,
    ensures
        op_defines(ops[i]) == Some((sccp_rewrite(ops, i)->0).0),
{
    lemma_bin_parts_defines(ops[i]);
}

/// The rewrite names no slot that the list did not name.
proof fn lemma_sccp_slots(old: Seq<Op>, new: Seq<Op>)
    requires
        new.len() == old.len(),
        forall|i: int| 0 <= i < old.len() ==> rewritten_as(#[trigger] new[i], old[i], sccp_rewrite(old, i)),
    ensures
        slots_within(new, old),
{
    assert forall|i: int, j: int| 0 <= i < new.len() && 0 <= j < op_slots(new[i]).len()
        implies mentions(old, #[trigger] op_slots(new[i])[j]) by {
        assert(rewritten_as(new[i], old[i], sccp_rewrite(old, i)));
        match sccp_rewrite(old, i) {
            None => {
                lemma_slots_of_member(old, i, j);
            },
            Some((s, v)) => {
                lemma_sccp_rewrite_target(old, i);
                let k = op_uses(old[i]).len() as int;
                assert(op_slots(new[i]) =~= seq![s]);
                assert(op_slots(old[i])[k] == s);
                lemma_slots_of_member(old, i, k);
            },
        }
    }
    lemma_slots_within(new, old);
}

} // verus!
