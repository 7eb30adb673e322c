//! Constant evaluation of IR operators on `OpValue`s, shared by the optimization
//! passes. Integer arithmetic that would overflow, division by zero and any
//! floating-point operand leave an operation unevaluated.
use vstd::prelude::*;
use crate::ir::slot::Slot;
use crate::ir::op::Op;
use crate::ir::value::{OpValue, ConstVal};
use crate::text::{seq_char_lt, str_lt};

verus! {

/// The binary operators of the IR.
#[derive(Debug, Clone, Copy, PartialEq, Eq, Structural)]
pub enum BinKind {
    Add,
    Sub,
    Mul,
    Div,
    Eq,
    Ne,
    Lt,
    Le,
    Gt,
    Ge,
}

/// The operator, operands and target of a binary instruction.
pub open spec fn bin_parts(op: Op) -> Option<(BinKind, Slot, Slot, Slot)> {
    match op {
        Op::Add { lhs, rhs, target } => Some((BinKind::Add, lhs, rhs, target)),
        Op::Sub { lhs, rhs, target } => Some((BinKind::Sub, lhs, rhs, target)),
        Op::Mul { lhs, rhs, target } => Some((BinKind::Mul, lhs, rhs, target)),
        Op::Div { lhs, rhs, target } => Some((BinKind::Div, lhs, rhs, target)),
        Op::Eq { lhs, rhs, target } => Some((BinKind::Eq, lhs, rhs, target)),
        Op::Ne { lhs, rhs, target } => Some((BinKind::Ne, lhs, rhs, target)),
        Op::Lt { lhs, rhs, target } => Some((BinKind::Lt, lhs, rhs, target)),
        Op::Le { lhs, rhs, target } => Some((BinKind::Le, lhs, rhs, target)),
        Op::Gt { lhs, rhs, target } => Some((BinKind::Gt, lhs, rhs, target)),
        Op::Ge { lhs, rhs, target } => Some((BinKind::Ge, lhs, rhs, target)),
        _ => None,
    }
}

/// The operator, operands and target of a binary instruction.
pub fn bin_parts_of(op: &Op) -> (r: Option<(BinKind, Slot, Slot, Slot)>)
    ensures
        r == bin_parts(*op),
{
    match op {
        Op::Add { lhs, rhs, target } => Some((BinKind::Add, *lhs, *rhs, *target)),
        Op::Sub { lhs, rhs, target } => Some((BinKind::Sub, *lhs, *rhs, *target)),
        Op::Mul { lhs, rhs, target } => Some((BinKind::Mul, *lhs, *rhs, *target)),
        Op::Div { lhs, rhs, target } => Some((BinKind::Div, *lhs, *rhs, *target)),
        Op::Eq { lhs, rhs, target } => Some((BinKind::Eq, *lhs, *rhs, *target)),
        Op::Ne { lhs, rhs, target } => Some((BinKind::Ne, *lhs, *rhs, *target)),
        Op::Lt { lhs, rhs, target } => Some((BinKind::Lt, *lhs, *rhs, *target)),
        Op::Le { lhs, rhs, target } => Some((BinKind::Le, *lhs, *rhs, *target)),
        Op::Gt { lhs, rhs, target } => Some((BinKind::Gt, *lhs, *rhs, *target)),
        Op::Ge { lhs, rhs, target } => Some((BinKind::Ge, *lhs, *rhs, *target)),
        _ => None,
    }
}

/// Integer arithmetic, `None` on overflow or division by zero.
pub open spec fn int_arith(k: BinKind, a: i64, b: i64) -> Option<i64> {
    match k {
        BinKind::Add => a.checked_add(b),
        BinKind::Sub => a.checked_sub(b),
        BinKind::Mul => a.checked_mul(b),
        BinKind::Div => a.checked_div(b),
        _ => None,
    }
}

/// Integer comparison.
pub open spec fn int_cmp(k: BinKind, a: i64, b: i64) -> bool {
    match k {
        BinKind::Eq => a == b,
        BinKind::Ne => a != b,
        BinKind::Lt => a < b,
        BinKind::Le => a <= b,
        BinKind::Gt => a > b,
        _ => a >= b,
    }
}

/// String comparison in code-point order.
pub open spec fn str_cmp(k: BinKind, a: Seq<char>, b: Seq<char>) -> bool {
    match k {
        BinKind::Eq => a == b,
        BinKind::Ne => a != b,
        BinKind::Lt => seq_char_lt(a, b),
        BinKind::Le => seq_char_lt(a, b) || a == b,
        BinKind::Gt => seq_char_lt(b, a),
        _ => seq_char_lt(b, a) || a == b,
    }
}

/// Whether the operator is arithmetic (as opposed to a comparison).
pub open spec fn is_arith(k: BinKind) -> bool {
    k == BinKind::Add || k == BinKind::Sub || k == BinKind::Mul || k == BinKind::Div
}

pub fn int_arith_exec(k: BinKind, a: i64, b: i64) -> (r: Option<i64>)
    ensures
        r == int_arith(k, a, b),
{
    match k {
        BinKind::Add => a.checked_add(b),
        BinKind::Sub => a.checked_sub(b),
        BinKind::Mul => a.checked_mul(b),
        BinKind::Div => a.checked_div(b),
        _ => None,
    }
}

pub fn int_cmp_exec(k: BinKind, a: i64, b: i64) -> (r: bool)
    ensures
        r == int_cmp(k, a, b),
{
    match k {
        BinKind::Eq => a == b,
        BinKind::Ne => a != b,
        BinKind::Lt => a < b,
        BinKind::Le => a <= b,
        BinKind::Gt => a > b,
        _ => a >= b,
    }
}

pub fn str_cmp_exec(k: BinKind, a: &String, b: &String) -> (r: bool)
    ensures
        r == str_cmp(k, a@, b@),
{
    match k {
        BinKind::Eq => *a == *b,
        BinKind::Ne => *a != *b,
        BinKind::Lt => str_lt(a.as_str(), b.as_str()),
        BinKind::Le => str_lt(a.as_str(), b.as_str()) || *a == *b,
        BinKind::Gt => str_lt(b.as_str(), a.as_str()),
        _ => str_lt(b.as_str(), a.as_str()) || *a == *b,
    }
}

/// The number of bytes of a character sequence in UTF-8.
pub open spec fn utf8_len(s: Seq<char>) -> nat {
    vstd::utf8::encode_utf8(s).len()
}

/// `str::len`: the length of the string in bytes, which std documents as the
/// length of its UTF-8 encoding. (vstd states the same length cast to `usize`,
/// which does not give the count itself.)
#[verifier::external_body]
fn str_byte_len(s: &str) -> (n: usize)
    ensures
        n as nat == utf8_len(s@),
{
    s.len()
}

/// The length of a string constant as an integer constant, when it fits.
pub open spec fn str_len_value(s: Seq<char>) -> Option<ConstVal> {
    if utf8_len(s) <= i64::MAX {
        Some(ConstVal::Int(utf8_len(s) as i64))
    } else {
        None
    }
}

pub fn str_len_value_exec(s: &String) -> (r: Option<OpValue>)
    ensures
        match r {
            Some(v) => str_len_value(s@) == Some(v@),
            None => str_len_value(s@) is None,
        },
{
    let n = str_byte_len(s.as_str());
    if n as u64 <= 9223372036854775807u64 {
        Some(OpValue::Int(n as i64))
    } else {
        None
    }
}

/// Law: integer addition, subtraction and multiplication of `a` (left operand) by
/// `b` (right operand) give the mathematical result when it fits in an `i64`, and
/// nothing when it does not.
pub proof fn law_int_arith_exact(a: i64, b: i64)
    ensures
        int_arith(BinKind::Add, a, b) == (if i64::MIN <= a + b <= i64::MAX { Some((a + b) as i64) } else { None::<i64> }),
        int_arith(BinKind::Sub, a, b) == (if i64::MIN <= a - b <= i64::MAX { Some((a - b) as i64) } else { None::<i64> }),
        int_arith(BinKind::Mul, a, b) == (if i64::MIN <= a * b <= i64::MAX { Some((a * b) as i64) } else { None::<i64> }),
{
}

/// Law: integer division of `a` by `b` truncates toward zero: nothing for a zero
/// divisor or for `i64::MIN / -1`; floor division on non-negative operands; and
/// negating either operand negates the quotient.
pub proof fn law_int_div(a: i64, b: i64)
    ensures
        int_arith(BinKind::Div, a, 0) is None,
        int_arith(BinKind::Div, i64::MIN, -1i64) is None,
        0 <= a && 0 < b ==> int_arith(BinKind::Div, a, b) == Some((a as int / b as int) as i64),
        0 < a && 0 < b ==> int_arith(BinKind::Div, (-a) as i64, b) == Some((-(a as int / b as int)) as i64),
        0 < a && 0 < b ==> int_arith(BinKind::Div, a, (-b) as i64) == Some((-(a as int / b as int)) as i64),
        0 < a && 0 < b ==> int_arith(BinKind::Div, (-a) as i64, (-b) as i64) == Some((a as int / b as int) as i64),
{
    if 0 < a && 0 < b {
        assert(0 <= a as int / b as int <= a as int) by (nonlinear_arith)
            requires 0 < a as int, 0 < b as int;
    }
    if 0 <= a && 0 < b {
        assert(0 <= a as int / b as int <= a as int) by (nonlinear_arith)
            requires 0 <= a as int, 0 < b as int;
    }
}

/// Law: integer comparison of `a` (left operand) with `b` (right operand) is the
/// mathematical one; `<=` is `<` or `==`, `>` is `<` with the operands swapped, and
/// `!=` is the negation of `==`.
pub proof fn law_int_cmp(a: i64, b: i64)
    ensures
        int_cmp(BinKind::Eq, a, b) == (a == b),
        int_cmp(BinKind::Lt, a, b) == (a < b),
        int_cmp(BinKind::Le, a, b) == (int_cmp(BinKind::Lt, a, b) || int_cmp(BinKind::Eq, a, b)),
        int_cmp(BinKind::Gt, a, b) == int_cmp(BinKind::Lt, b, a),
        int_cmp(BinKind::Ge, a, b) == int_cmp(BinKind::Le, b, a),
        int_cmp(BinKind::Ne, a, b) == !int_cmp(BinKind::Eq, a, b),
{
}

/// Law: string comparison of `a` (left operand) with `b` (right operand) follows
/// code-point order: `<` is `seq_char_lt(a, b)`, `<=` is `<` or `==`, `>` is `<` with
/// the operands swapped, `>=` likewise, and `!=` is the negation of `==`.
pub proof fn law_str_cmp(a: Seq<char>, b: Seq<char>)
    ensures
        str_cmp(BinKind::Eq, a, b) == (a == b),
        str_cmp(BinKind::Lt, a, b) == seq_char_lt(a, b),
        str_cmp(BinKind::Le, a, b) == (str_cmp(BinKind::Lt, a, b) || str_cmp(BinKind::Eq, a, b)),
        str_cmp(BinKind::Gt, a, b) == str_cmp(BinKind::Lt, b, a),
        str_cmp(BinKind::Ge, a, b) == str_cmp(BinKind::Le, b, a),
        str_cmp(BinKind::Ne, a, b) == !str_cmp(BinKind::Eq, a, b),
{
}

} // verus!
