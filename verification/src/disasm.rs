//! The bytecode file format of the register-based IR and its decoding: a header
//! (four magic bytes, a version and an instruction count, little-endian `u32`s),
//! then the instructions, each an opcode byte and its operands.
use vstd::prelude::*;
use crate::ir::irop::Value;
use crate::ir::valview::{ValueView, value_view, values_view, lemma_values_view_push};
use crate::text::{push_char, push_str, nat_digits};
use vstd::utf8::{valid_utf8, decode_utf8};

verus! {

/// The text of the error `String::from_utf8` gives for bytes that are not UTF-8.
pub uninterp spec fn utf8_error_text(bytes: Seq<u8>) -> Seq<char>;

/// What `String::from_utf8` makes of a byte string: the characters it encodes, or
/// the text of the error when it is not UTF-8.
pub open spec fn utf8_parse(bytes: Seq<u8>) -> Result<Seq<char>, Seq<char>> {
    if valid_utf8(bytes) {
        Ok(decode_utf8(bytes))
    } else {
        Err(utf8_error_text(bytes))
    }
}

/// Decodes UTF-8 bytes (`String::from_utf8`): the characters they encode when they
/// are valid UTF-8, otherwise the error's text.
#[verifier::external_body]
fn string_from_utf8(bytes: Vec<u8>) -> (r: Result<String, String>)
    ensures
        match r {
            Ok(s) => valid_utf8(bytes@) && s@ == decode_utf8(bytes@),
            Err(e) => !valid_utf8(bytes@) && e@ == utf8_error_text(bytes@),
        },
{
    String::from_utf8(bytes).map_err(|e| e.to_string())
}

/// The text std gives a read that runs out of input.
pub open spec fn eof_text() -> Seq<char> {
    "failed to fill whole buffer"@
}

/// The little-endian `u32` at `p`.
pub open spec fn u32_at(b: Seq<u8>, p: int) -> u32 {
    (b[p] as int + 256 * (b[p + 1] as int) + 65536 * (b[p + 2] as int) + 16777216 * (b[p + 3] as int)) as u32
}

/// The little-endian `u64` at `p`.
pub open spec fn u64_at(b: Seq<u8>, p: int) -> u64 {
    (u32_at(b, p) as int + 4294967296 * (u32_at(b, p + 4) as int)) as u64
}

/// The lowercase hexadecimal digit of `d` (0..=15).
pub open spec fn hex_digit(d: int) -> char {
    if d == 0 { '0' } else if d == 1 { '1' } else if d == 2 { '2' } else if d == 3 { '3' }
    else if d == 4 { '4' } else if d == 5 { '5' } else if d == 6 { '6' } else if d == 7 { '7' }
    else if d == 8 { '8' } else if d == 9 { '9' } else if d == 10 { 'a' } else if d == 11 { 'b' }
    else if d == 12 { 'c' } else if d == 13 { 'd' } else if d == 14 { 'e' } else { 'f' }
}

/// A byte as two lowercase hexadecimal digits.
pub open spec fn hex2(t: u8) -> Seq<char> {
    seq![hex_digit(t as int / 16), hex_digit(t as int % 16)]
}

/// The `k` little-endian `u32`s from `p`, and the position after them.
pub open spec fn read_u32s(b: Seq<u8>, p: int, k: nat) -> Result<(Seq<u32>, int), Seq<char>> {
    if 0 <= p && p + 4 * k <= b.len() {
        Ok((Seq::new(k, |j: int| u32_at(b, p + 4 * j)), p + 4 * k))
    } else {
        Err("unexpected eof: "@ + eof_text())
    }
}

/// A length-prefixed UTF-8 string at `p`.
pub open spec fn read_string_at(b: Seq<u8>, p: int) -> Result<(Seq<char>, int), Seq<char>> {
    match read_u32s(b, p, 1) {
        Err(e) => Err(e),
        Ok((n, q)) => if q + (n[0] as int) <= b.len() {
            match utf8_parse(b.subrange(q, q + n[0] as int)) {
                Ok(s) => Ok((s, q + n[0] as int)),
                Err(m) => Err("invalid utf8: "@ + m),
            }
        } else {
            Err("unexpected eof reading string: "@ + eof_text())
        },
    }
}

/// A tagged constant at `p`: integer, float (by its bits), boolean, string,
/// symbol, array (a count, then its elements) or null.
pub open spec fn read_value_at(b: Seq<u8>, p: int) -> Result<(ValueView, int), Seq<char>>
    decreases b.len() - p, 0int,
{
    if !(0 <= p < b.len()) {
        Err("eof reading value tag: "@ + eof_text())
    } else if b[p] == 1 {
        if p + 9 <= b.len() { Ok((ValueView::Int(u64_at(b, p + 1) as i64), p + 9)) } else { Err("eof int: "@ + eof_text()) }
    } else if b[p] == 2 {
        if p + 9 <= b.len() { Ok((ValueView::Float(u64_at(b, p + 1)), p + 9)) } else { Err("eof float: "@ + eof_text()) }
    } else if b[p] == 3 {
        if p + 2 <= b.len() { Ok((ValueView::Bool(b[p + 1] != 0), p + 2)) } else { Err("eof bool: "@ + eof_text()) }
    } else if b[p] == 4 {
        match read_string_at(b, p + 1) {
            Ok((s, q)) => Ok((ValueView::Str(s), q)),
            Err(e) => Err(e),
        }
    } else if b[p] == 5 {
        match read_string_at(b, p + 1) {
            Ok((s, q)) => Ok((ValueView::Symbol(s), q)),
            Err(e) => Err(e),
        }
    } else if b[p] == 6 {
        if p + 5 <= b.len() {
            match read_values_at(b, p + 5, u32_at(b, p + 1) as nat) {
                Ok((vs, q)) => Ok((ValueView::Array(vs), q)),
                Err(e) => Err(e),
            }
        } else {
            Err("unexpected eof: "@ + eof_text())
        }
    } else if b[p] == 7 {
        Ok((ValueView::Null, p + 1))
    } else {
        Err("unknown value tag 0x"@ + hex2(b[p]))
    }
}

/// `n` constants in a row from `p`.
pub open spec fn read_values_at(b: Seq<u8>, p: int, n: nat) -> Result<(Seq<ValueView>, int), Seq<char>>
    decreases b.len() - p, n + 1,
{
    if n == 0 {
        Ok((Seq::empty(), p))
    } else {
        match read_value_at(b, p) {
            Err(e) => Err(e),
            Ok((v, q)) => if p < q <= b.len() {
                match read_values_at(b, q, (n - 1) as nat) {
                    Ok((vs, r)) => Ok((seq![v] + vs, r)),
                    Err(e) => Err(e),
                }
            } else {
                Err(Seq::empty())
            },
        }
    }
}

/// An instruction of the bytecode, as decoded.
#[derive(Debug)]
pub enum ParsedOp {
    LConst { dest: u32, val: Value },
    LLocal { dest: u32, local: u32 },
    SLocal { src: u32, local: u32 },
    Bin { name: &'static str, dest: u32, a: u32, b: u32 },
    Compare { name: &'static str, dest: u32, a: u32, b: u32 },
    Not { dest: u32, src: u32 },
    Inc { dest: u32 },
    Dec { dest: u32 },
    Label { name: String },
    Jump { target: u32 },
    BrTrue { cond: u32, target: u32 },
    BrFalse { cond: u32, target: u32 },
    Halt,
    AllocClosure { dest: u32 },
    CStore { clo: u32, field: u32, src: u32 },
    CLoad { dest: u32, clo: u32, field: u32 },
    Call { dest: u32, func: u32, args: Vec<u32> },
    CallLabel { dest: u32, label_index: u32, args: Vec<u32> },
    Ret { src: u32 },
}

/// What a decoded instruction says.
pub enum OpView {
    LConst { dest: u32, val: ValueView },
    LLocal { dest: u32, local: u32 },
    SLocal { src: u32, local: u32 },
    Bin { name: Seq<char>, dest: u32, a: u32, b: u32 },
    Compare { name: Seq<char>, dest: u32, a: u32, b: u32 },
    Not { dest: u32, src: u32 },
    Inc { dest: u32 },
    Dec { dest: u32 },
    Label { name: Seq<char> },
    Jump { target: u32 },
    BrTrue { cond: u32, target: u32 },
    BrFalse { cond: u32, target: u32 },
    Halt,
    AllocClosure { dest: u32 },
    CStore { clo: u32, field: u32, src: u32 },
    CLoad { dest: u32, clo: u32, field: u32 },
    Call { dest: u32, func: u32, args: Seq<u32> },
    CallLabel { dest: u32, label_index: u32, args: Seq<u32> },
    Ret { src: u32 },
}

/// What a decoded instruction says.
pub open spec fn op_view(op: ParsedOp) -> OpView {
    match op {
        ParsedOp::LConst { dest, val } => OpView::LConst { dest, val: value_view(val) },
        ParsedOp::LLocal { dest, local } => OpView::LLocal { dest, local },
        ParsedOp::SLocal { src, local } => OpView::SLocal { src, local },
        ParsedOp::Bin { name, dest, a, b } => OpView::Bin { name: name@, dest, a, b },
        ParsedOp::Compare { name, dest, a, b } => OpView::Compare { name: name@, dest, a, b },
        ParsedOp::Not { dest, src } => OpView::Not { dest, src },
        ParsedOp::Inc { dest } => OpView::Inc { dest },
        ParsedOp::Dec { dest } => OpView::Dec { dest },
        ParsedOp::Label { name } => OpView::Label { name: name@ },
        ParsedOp::Jump { target } => OpView::Jump { target },
        ParsedOp::BrTrue { cond, target } => OpView::BrTrue { cond, target },
        ParsedOp::BrFalse { cond, target } => OpView::BrFalse { cond, target },
        ParsedOp::Halt => OpView::Halt,
        ParsedOp::AllocClosure { dest } => OpView::AllocClosure { dest },
        ParsedOp::CStore { clo, field, src } => OpView::CStore { clo, field, src },
        ParsedOp::CLoad { dest, clo, field } => OpView::CLoad { dest, clo, field },
        ParsedOp::Call { dest, func, args } => OpView::Call { dest, func, args: args@ },
        ParsedOp::CallLabel { dest, label_index, args } => OpView::CallLabel { dest, label_index, args: args@ },
        ParsedOp::Ret { src } => OpView::Ret { src },
    }
}

/// The name of a binary arithmetic opcode (0x10..=0x14).
pub open spec fn bin_name(code: u8) -> Seq<char> {
    if code == 0x10 { "Add"@ } else if code == 0x11 { "Sub"@ } else if code == 0x12 { "Mul"@ }
    else if code == 0x13 { "Div"@ } else { "Mod"@ }
}

/// The name of a comparison or logic opcode (0x20..=0x27).
pub open spec fn compare_name(code: u8) -> Seq<char> {
    if code == 0x20 { "Eq"@ } else if code == 0x21 { "Neq"@ } else if code == 0x22 { "Lt"@ }
    else if code == 0x23 { "Lte"@ } else if code == 0x24 { "Gt"@ } else if code == 0x25 { "Gte"@ }
    else if code == 0x26 { "And"@ } else { "Or"@ }
}

/// Law: the arithmetic opcodes 0x10 to 0x14 are named Add, Sub, Mul, Div and Mod,
/// the comparison and logic opcodes 0x20 to 0x27 Eq, Neq, Lt, Lte, Gt, Gte, And and
/// Or; no two opcodes of either group share a name.
pub proof fn law_opcode_names()
    ensures
        bin_name(0x10) == "Add"@,
        bin_name(0x11) == "Sub"@,
        bin_name(0x12) == "Mul"@,
        bin_name(0x13) == "Div"@,
        bin_name(0x14) == "Mod"@,
        forall|c: u8, d: u8| 0x10 <= c < d <= 0x14 ==> bin_name(c) != bin_name(d),
        compare_name(0x20) == "Eq"@,
        compare_name(0x21) == "Neq"@,
        compare_name(0x22) == "Lt"@,
        compare_name(0x23) == "Lte"@,
        compare_name(0x24) == "Gt"@,
        compare_name(0x25) == "Gte"@,
        compare_name(0x26) == "And"@,
        compare_name(0x27) == "Or"@,
        forall|c: u8, d: u8| 0x20 <= c < d <= 0x27 ==> compare_name(c) != compare_name(d),
{
    reveal_strlit("Add");
    reveal_strlit("Sub");
    reveal_strlit("Mul");
    reveal_strlit("Div");
    reveal_strlit("Mod");
    reveal_strlit("Eq");
    reveal_strlit("Neq");
    reveal_strlit("Lt");
    reveal_strlit("Lte");
    reveal_strlit("Gt");
    reveal_strlit("Gte");
    reveal_strlit("And");
    reveal_strlit("Or");
    assert forall|c: u8, d: u8| 0x10 <= c < d <= 0x14 implies bin_name(c) != bin_name(d) by {
        assert(bin_name(c)[0] != bin_name(d)[0] || bin_name(c)[1] != bin_name(d)[1]);
    }
    assert forall|c: u8, d: u8| 0x20 <= c < d <= 0x27 implies compare_name(c) != compare_name(d) by {
        assert(compare_name(c).len() != compare_name(d).len() || compare_name(c)[0] != compare_name(d)[0]
            || compare_name(c)[1] != compare_name(d)[1]);
    }
}

/// Law: an arithmetic instruction (opcode 0x10 to 0x14) decodes to a binary
/// operation named after its opcode (Add, Sub, Mul, Div, Mod), with the destination
/// and the two sources in the order they are stored, and takes 13 bytes.
pub proof fn law_read_arith_op(b: Seq<u8>, p: int, i: nat)
    requires
        0 <= p,
        p + 13 <= b.len(),
        0x10 <= b[p] <= 0x14,
    ensures
        read_op_at(b, p, i) matches Ok((OpView::Bin { name, dest, a, b: c }, q)) && {
            &&& q == p + 13
            &&& dest == u32_at(b, p + 1) && a == u32_at(b, p + 5) && c == u32_at(b, p + 9)
            &&& b[p] == 0x10 ==> name == "Add"@
            &&& b[p] == 0x11 ==> name == "Sub"@
            &&& b[p] == 0x12 ==> name == "Mul"@
            &&& b[p] == 0x13 ==> name == "Div"@
            &&& b[p] == 0x14 ==> name == "Mod"@
        },
{
    law_opcode_names();
    let w = Seq::new(3, |j: int| u32_at(b, p + 1 + 4 * j));
    assert(read_u32s(b, p + 1, 3) == Ok::<(Seq<u32>, int), Seq<char>>((w, p + 13)));
    assert(w[0] == u32_at(b, p + 1) && w[1] == u32_at(b, p + 5) && w[2] == u32_at(b, p + 9));
}

/// Law: a comparison or logic instruction (opcode 0x20 to 0x27) decodes to a
/// comparison named after its opcode (Eq, Neq, Lt, Lte, Gt, Gte, And, Or), with the
/// destination and the two sources in the order they are stored.
pub proof fn law_read_compare_op(b: Seq<u8>, p: int, i: nat)
    requires
        0 <= p,
        p + 13 <= b.len(),
        0x20 <= b[p] <= 0x27,
    ensures
        read_op_at(b, p, i) matches Ok((OpView::Compare { name, dest, a, b: c }, q)) && {
            &&& q == p + 13
            &&& dest == u32_at(b, p + 1) && a == u32_at(b, p + 5) && c == u32_at(b, p + 9)
            &&& b[p] == 0x20 ==> name == "Eq"@
            &&& b[p] == 0x21 ==> name == "Neq"@
            &&& b[p] == 0x22 ==> name == "Lt"@
            &&& b[p] == 0x23 ==> name == "Lte"@
            &&& b[p] == 0x24 ==> name == "Gt"@
            &&& b[p] == 0x25 ==> name == "Gte"@
            &&& b[p] == 0x26 ==> name == "And"@
            &&& b[p] == 0x27 ==> name == "Or"@
        },
{
    law_opcode_names();
    let w = Seq::new(3, |j: int| u32_at(b, p + 1 + 4 * j));
    assert(read_u32s(b, p + 1, 3) == Ok::<(Seq<u32>, int), Seq<char>>((w, p + 13)));
    assert(w[0] == u32_at(b, p + 1) && w[1] == u32_at(b, p + 5) && w[2] == u32_at(b, p + 9));
}

/// How many `u32` operands an opcode has before any variable part, or `None`
/// for an unknown opcode.
pub open spec fn fixed_operands(code: u8) -> Option<nat> {
    if code == 0x01 { Some(1) }
    else if code == 0x02 || code == 0x03 { Some(2) }
    else if 0x10 <= code <= 0x14 || 0x20 <= code <= 0x27 { Some(3) }
    else if code == 0x28 { Some(2) }
    else if code == 0x30 || code == 0x31 { Some(1) }
    else if code == 0x40 { Some(0) }
    else if code == 0x41 { Some(1) }
    else if code == 0x42 || code == 0x43 { Some(2) }
    else if code == 0x50 { Some(0) }
    else if code == 0x60 { Some(1) }
    else if code == 0x61 || code == 0x62 { Some(3) }
    else if code == 0x70 || code == 0x71 { Some(3) }
    else if code == 0x80 { Some(1) }
    else { None }
}

/// The instruction number `i` at `p`: its opcode, its `u32` operands, then for a
/// constant load the constant, for a label its name, for a call its arguments.
pub open spec fn read_op_at(b: Seq<u8>, p: int, i: nat) -> Result<(OpView, int), Seq<char>> {
    if !(0 <= p < b.len()) {
        Err("unexpected eof: "@ + eof_text())
    } else {
        let code = b[p];
        match fixed_operands(code) {
            None => Err("unknown opcode 0x"@ + hex2(code) + " at op "@ + nat_digits(i)),
            Some(k) => match read_u32s(b, p + 1, k) {
                Err(e) => Err(e),
                Ok((w, q)) => {
                    if code == 0x01 {
                        match read_value_at(b, q) {
                            Ok((v, r)) => Ok((OpView::LConst { dest: w[0], val: v }, r)),
                            Err(e) => Err(e),
                        }
                    } else if code == 0x02 {
                        Ok((OpView::LLocal { dest: w[0], local: w[1] }, q))
                    } else if code == 0x03 {
                        Ok((OpView::SLocal { src: w[0], local: w[1] }, q))
                    } else if 0x10 <= code <= 0x14 {
                        Ok((OpView::Bin { name: bin_name(code), dest: w[0], a: w[1], b: w[2] }, q))
                    } else if 0x20 <= code <= 0x27 {
                        Ok((OpView::Compare { name: compare_name(code), dest: w[0], a: w[1], b: w[2] }, q))
                    } else if code == 0x28 {
                        Ok((OpView::Not { dest: w[0], src: w[1] }, q))
                    } else if code == 0x30 {
                        Ok((OpView::Inc { dest: w[0] }, q))
                    } else if code == 0x31 {
                        Ok((OpView::Dec { dest: w[0] }, q))
                    } else if code == 0x40 {
                        match read_string_at(b, q) {
                            Ok((s, r)) => Ok((OpView::Label { name: s }, r)),
                            Err(e) => Err(e),
                        }
                    } else if code == 0x41 {
                        Ok((OpView::Jump { target: w[0] }, q))
                    } else if code == 0x42 {
                        Ok((OpView::BrTrue { cond: w[0], target: w[1] }, q))
                    } else if code == 0x43 {
                        Ok((OpView::BrFalse { cond: w[0], target: w[1] }, q))
                    } else if code == 0x50 {
                        Ok((OpView::Halt, q))
                    } else if code == 0x60 {
                        Ok((OpView::AllocClosure { dest: w[0] }, q))
                    } else if code == 0x61 {
                        Ok((OpView::CStore { clo: w[0], field: w[1], src: w[2] }, q))
                    } else if code == 0x62 {
                        Ok((OpView::CLoad { dest: w[0], clo: w[1], field: w[2] }, q))
                    } else if code == 0x70 || code == 0x71 {
                        match read_u32s(b, q, w[2] as nat) {
                            Err(e) => Err(e),
                            Ok((args, r)) => if code == 0x70 {
                                Ok((OpView::Call { dest: w[0], func: w[1], args }, r))
                            } else {
                                Ok((OpView::CallLabel { dest: w[0], label_index: w[1], args }, r))
                            },
                        }
                    } else {
                        Ok((OpView::Ret { src: w[0] }, q))
                    }
                },
            },
        }
    }
}

/// The instructions number `i` to `count - 1` from `p`.
pub open spec fn read_ops_at(b: Seq<u8>, p: int, i: nat, count: nat) -> Result<Seq<OpView>, Seq<char>>
    decreases count - i,
{
    if i >= count {
        Ok(Seq::empty())
    } else {
        match read_op_at(b, p, i) {
            Err(e) => Err(e),
            Ok((op, q)) => match read_ops_at(b, q, i + 1, count) {
                Ok(rest) => Ok(seq![op] + rest),
                Err(e) => Err(e),
            },
        }
    }
}

/// A decoded bytecode file.
pub struct Decoded {
    pub magic: Vec<u8>,
    pub version: u32,
    pub ops: Vec<ParsedOp>,
}

/// What a bytecode file holds: its magic bytes, version and instructions, or the
/// text of the first error met.
pub open spec fn decode_spec(b: Seq<u8>) -> Result<(Seq<u8>, u32, Seq<OpView>), Seq<char>> {
    if b.len() < 4 {
        Err("missing header: "@ + eof_text())
    } else {
        match read_u32s(b, 4, 2) {
            Err(e) => Err(e),
            Ok((h, q)) => match read_ops_at(b, q, 0, h[1] as nat) {
                Ok(ops) => Ok((b.subrange(0, 4), h[0], ops)),
                Err(e) => Err(e),
            },
        }
    }
}

fn hex_char(d: u8) -> (c: char)
    requires
        d < 16,
    ensures
        c == hex_digit(d as int),
{
    if d == 0 { '0' } else if d == 1 { '1' } else if d == 2 { '2' } else if d == 3 { '3' }
    else if d == 4 { '4' } else if d == 5 { '5' } else if d == 6 { '6' } else if d == 7 { '7' }
    else if d == 8 { '8' } else if d == 9 { '9' } else if d == 10 { 'a' } else if d == 11 { 'b' }
    else if d == 12 { 'c' } else if d == 13 { 'd' } else if d == 14 { 'e' } else { 'f' }
}

fn push_hex2(s: &mut String, t: u8)
    ensures
        final(s)@ == old(s)@ + hex2(t),
{
    push_char(s, hex_char(t / 16));
    push_char(s, hex_char(t % 16));
    assert(s@ =~= old(s)@ + hex2(t));
}

fn eof_error(prefix: &str) -> (r: String)
    ensures
        r@ == prefix@ + eof_text(),
{
    let mut s = String::from_str(prefix);
    push_str(&mut s, "failed to fill whole buffer");
    s
}

fn u32_le(b: &[u8], p: usize) -> (r: u32)
    requires
        p + 4 <= b@.len(),
    ensures
        r == u32_at(b@, p as int),
{
    (b[p] as u32) + (b[p + 1] as u32) * 256 + (b[p + 2] as u32) * 65536 + (b[p + 3] as u32) * 16777216
}

fn u64_le(b: &[u8], p: usize) -> (r: u64)
    requires
        p + 8 <= b@.len(),
    ensures
        r == u64_at(b@, p as int),
{
    let _len = b.len();
    let lo = u32_le(b, p);
    let hi = u32_le(b, p + 4);
    (lo as u64) + (hi as u64) * 4294967296
}

/// `k` little-endian `u32`s from `p`.
fn read_u32s_exec(b: &[u8], p: usize, k: usize) -> (r: Result<(Vec<u32>, usize), String>)
    ensures
        match read_u32s(b@, p as int, k as nat) {
            Ok((w, q)) => r matches Ok((v, q2)) && v@ == w && q2 == q,
            Err(e) => r matches Err(m) && m@ == e,
        },
{
    if p > b.len() || k > (b.len() - p) / 4 {
        return Err(eof_error("unexpected eof: "));
    }
    let mut v: Vec<u32> = Vec::new();
    let mut j: usize = 0;
    while j < k
        invariant
            j <= k,
            p + 4 * k <= b@.len(),
            b@.len() <= usize::MAX,
            v@ == Seq::new(j as nat, |x: int| u32_at(b@, p + 4 * x)),
        decreases k - j,
    {
        v.push(u32_le(b, p + 4 * j));
        assert(v@ =~= Seq::new((j + 1) as nat, |x: int| u32_at(b@, p + 4 * x)));
        j += 1;
    }
    Ok((v, p + 4 * k))
}

/// A length-prefixed UTF-8 string at `p`.
fn read_string_exec(b: &[u8], p: usize) -> (r: Result<(String, usize), String>)
    ensures
        match read_string_at(b@, p as int) {
            Ok((s, q)) => r matches Ok((x, q2)) && x@ == s && q2 == q && p < q2 <= b@.len(),
            Err(e) => r matches Err(m) && m@ == e,
        },
{
    let (w, q) = match read_u32s_exec(b, p, 1) {
        Ok(x) => x,
        Err(e) => return Err(e),
    };
    let n = w[0] as usize;
    if n > b.len() - q {
        return Err(eof_error("unexpected eof reading string: "));
    }
    let mut bytes: Vec<u8> = Vec::new();
    let mut j: usize = 0;
    while j < n
        invariant
            j <= n,
            q + n <= b@.len(),
            b@.len() <= usize::MAX,
            bytes@ == b@.subrange(q as int, q + j),
        decreases n - j,
    {
        bytes.push(b[q + j]);
        assert(bytes@ =~= b@.subrange(q as int, q + j + 1));
        j += 1;
    }
    match string_from_utf8(bytes) {
        Ok(s) => Ok((s, q + n)),
        Err(e) => {
            let mut m = String::from_str("invalid utf8: ");
            push_str(&mut m, e.as_str());
            Err(m)
        },
    }
}

/// The result of reading more values after `done` ones.
pub open spec fn after(done: Seq<ValueView>, r: Result<(Seq<ValueView>, int), Seq<char>>) -> Result<(Seq<ValueView>, int), Seq<char>> {
    match r {
        Ok((vs, q)) => Ok((done + vs, q)),
        Err(e) => Err(e),
    }
}

/// A tagged constant at `p`.
fn read_value_exec(b: &[u8], p: usize) -> (r: Result<(Value, usize), String>)
    ensures
        match read_value_at(b@, p as int) {
            Ok((v, q)) => r matches Ok((x, q2)) && value_view(x) == v && q2 == q && p < q2 <= b@.len(),
            Err(e) => r matches Err(m) && m@ == e,
        },
    decreases b@.len() - p, 0int,
{
    if p >= b.len() {
        return Err(eof_error("eof reading value tag: "));
    }
    let tag = b[p];
    if tag == 1 {
        if b.len() - p < 9 {
            return Err(eof_error("eof int: "));
        }
        Ok((Value::Int(u64_le(b, p + 1) as i64), p + 9))
    } else if tag == 2 {
        if b.len() - p < 9 {
            return Err(eof_error("eof float: "));
        }
        Ok((Value::Float(u64_le(b, p + 1)), p + 9))
    } else if tag == 3 {
        if b.len() - p < 2 {
            return Err(eof_error("eof bool: "));
        }
        Ok((Value::Bool(b[p + 1] != 0), p + 2))
    } else if tag == 4 {
        match read_string_exec(b, p + 1) {
            Ok((s, q)) => Ok((Value::Str(s), q)),
            Err(e) => Err(e),
        }
    } else if tag == 5 {
        match read_string_exec(b, p + 1) {
            Ok((s, q)) => Ok((Value::Symbol(s), q)),
            Err(e) => Err(e),
        }
    } else if tag == 6 {
        if b.len() - p < 5 {
            return Err(eof_error("unexpected eof: "));
        }
        let n = u32_le(b, p + 1);
        match read_values_exec(b, p + 5, n) {
            Ok((vs, q)) => Ok((Value::Array(vs), q)),
            Err(e) => Err(e),
        }
    } else if tag == 7 {
        Ok((Value::Null, p + 1))
    } else {
        let mut m = String::from_str("unknown value tag 0x");
        push_hex2(&mut m, tag);
        Err(m)
    }
}

/// `n` constants in a row from `p`.
fn read_values_exec(b: &[u8], p: usize, n: u32) -> (r: Result<(Vec<Value>, usize), String>)
    requires
        p <= b@.len(),
    ensures
        match read_values_at(b@, p as int, n as nat) {
            Ok((vs, q)) => r matches Ok((x, q2)) && values_view(x@) == vs && q2 == q && p <= q2 <= b@.len(),
            Err(e) => r matches Err(m) && m@ == e,
        },
    decreases b@.len() - p, n as int + 1,
{
    let mut out: Vec<Value> = Vec::new();
    let mut cur = p;
    let mut k: u32 = 0;
    assert(values_view(out@) =~= Seq::<ValueView>::empty());
    assert(after(Seq::empty(), read_values_at(b@, p as int, n as nat)) == read_values_at(b@, p as int, n as nat)) by {
        match read_values_at(b@, p as int, n as nat) {
            Ok((vs, q)) => { assert(Seq::<ValueView>::empty() + vs =~= vs); },
            Err(e) => {},
        }
    }
    while k < n
        invariant
            p <= cur <= b@.len(),
            k <= n,
            k > 0 ==> p < cur,
            read_values_at(b@, p as int, n as nat) == after(values_view(out@), read_values_at(b@, cur as int, (n - k) as nat)),
        decreases n - k,
    {
        let ghost done = values_view(out@);
        match read_value_exec(b, cur) {
            Err(e) => {
                return Err(e);
            },
            Ok((v, q)) => {
                proof {
                    lemma_values_view_push(out@, v);
                    let rest = read_values_at(b@, q as int, (n - k - 1) as nat);
                    assert(read_values_at(b@, cur as int, (n - k) as nat) == after(seq![value_view(v)], rest));
                    match rest {
                        Ok((vs, r)) => {
                            assert(done + (seq![value_view(v)] + vs) =~= done.push(value_view(v)) + vs);
                        },
                        Err(e) => {},
                    }
                }
                out.push(v);
                cur = q;
                k += 1;
            },
        }
    }
    assert(read_values_at(b@, cur as int, 0) == Ok::<(Seq<ValueView>, int), Seq<char>>((Seq::<ValueView>::empty(), cur as int)));
    assert(values_view(out@) + Seq::<ValueView>::empty() =~= values_view(out@));
    Ok((out, cur))
}

fn fixed_operands_exec(code: u8) -> (r: Option<usize>)
    ensures
        match fixed_operands(code) {
            Some(k) => r == Some(k as usize),
            None => r is None,
        },
{
    if code == 0x01 { Some(1) }
    else if code == 0x02 || code == 0x03 { Some(2) }
    else if (0x10 <= code && code <= 0x14) || (0x20 <= code && code <= 0x27) { Some(3) }
    else if code == 0x28 { Some(2) }
    else if code == 0x30 || code == 0x31 { Some(1) }
    else if code == 0x40 { Some(0) }
    else if code == 0x41 { Some(1) }
    else if code == 0x42 || code == 0x43 { Some(2) }
    else if code == 0x50 { Some(0) }
    else if code == 0x60 { Some(1) }
    else if code == 0x61 || code == 0x62 { Some(3) }
    else if code == 0x70 || code == 0x71 { Some(3) }
    else if code == 0x80 { Some(1) }
    else { None }
}

fn bin_name_exec(code: u8) -> (r: &'static str)
    ensures
        r@ == bin_name(code),
{
    if code == 0x10 { "Add" } else if code == 0x11 { "Sub" } else if code == 0x12 { "Mul" }
    else if code == 0x13 { "Div" } else { "Mod" }
}

fn compare_name_exec(code: u8) -> (r: &'static str)
    ensures
        r@ == compare_name(code),
{
    if code == 0x20 { "Eq" } else if code == 0x21 { "Neq" } else if code == 0x22 { "Lt" }
    else if code == 0x23 { "Lte" } else if code == 0x24 { "Gt" } else if code == 0x25 { "Gte" }
    else if code == 0x26 { "And" } else { "Or" }
}

/// The instruction number `i` at `p`.
fn read_op_exec(b: &[u8], p: usize, i: usize) -> (r: Result<(ParsedOp, usize), String>)
    ensures
        match read_op_at(b@, p as int, i as nat) {
            Ok((o, q)) => r matches Ok((x, q2)) && op_view(x) == o && q2 == q && p < q2 <= b@.len(),
            Err(e) => r matches Err(m) && m@ == e,
        },
{
    if p >= b.len() {
        return Err(eof_error("unexpected eof: "));
    }
    let code = b[p];
    let k = match fixed_operands_exec(code) {
        Some(k) => k,
        None => {
            let mut m = String::from_str("unknown opcode 0x");
            push_hex2(&mut m, code);
            push_str(&mut m, " at op ");
            crate::text::push_usize_decimal(&mut m, i);
            return Err(m);
        },
    };
    let (w, q) = match read_u32s_exec(b, p + 1, k) {
        Ok(x) => x,
        Err(e) => return Err(e),
    };
    if code == 0x01 {
        match read_value_exec(b, q) {
            Ok((v, r)) => Ok((ParsedOp::LConst { dest: w[0], val: v }, r)),
            Err(e) => Err(e),
        }
    } else if code == 0x02 {
        Ok((ParsedOp::LLocal { dest: w[0], local: w[1] }, q))
    } else if code == 0x03 {
        Ok((ParsedOp::SLocal { src: w[0], local: w[1] }, q))
    } else if 0x10 <= code && code <= 0x14 {
        Ok((ParsedOp::Bin { name: bin_name_exec(code), dest: w[0], a: w[1], b: w[2] }, q))
    } else if 0x20 <= code && code <= 0x27 {
        Ok((ParsedOp::Compare { name: compare_name_exec(code), dest: w[0], a: w[1], b: w[2] }, q))
    } else if code == 0x28 {
        Ok((ParsedOp::Not { dest: w[0], src: w[1] }, q))
    } else if code == 0x30 {
        Ok((ParsedOp::Inc { dest: w[0] }, q))
    } else if code == 0x31 {
        Ok((ParsedOp::Dec { dest: w[0] }, q))
    } else if code == 0x40 {
        match read_string_exec(b, q) {
            Ok((s, r)) => Ok((ParsedOp::Label { name: s }, r)),
            Err(e) => Err(e),
        }
    } else if code == 0x41 {
        Ok((ParsedOp::Jump { target: w[0] }, q))
    } else if code == 0x42 {
        Ok((ParsedOp::BrTrue { cond: w[0], target: w[1] }, q))
    } else if code == 0x43 {
        Ok((ParsedOp::BrFalse { cond: w[0], target: w[1] }, q))
    } else if code == 0x50 {
        Ok((ParsedOp::Halt, q))
    } else if code == 0x60 {
        Ok((ParsedOp::AllocClosure { dest: w[0] }, q))
    } else if code == 0x61 {
        Ok((ParsedOp::CStore { clo: w[0], field: w[1], src: w[2] }, q))
    } else if code == 0x62 {
        Ok((ParsedOp::CLoad { dest: w[0], clo: w[1], field: w[2] }, q))
    } else if code == 0x70 || code == 0x71 {
        match read_u32s_exec(b, q, w[2] as usize) {
            Err(e) => Err(e),
            Ok((args, r)) => if code == 0x70 {
                Ok((ParsedOp::Call { dest: w[0], func: w[1], args }, r))
            } else {
                Ok((ParsedOp::CallLabel { dest: w[0], label_index: w[1], args }, r))
            },
        }
    } else {
        Ok((ParsedOp::Ret { src: w[0] }, q))
    }
}

/// What the decoded instructions say.
pub open spec fn ops_view(ops: Seq<ParsedOp>) -> Seq<OpView> {
    ops.map_values(|o: ParsedOp| op_view(o))
}

/// The result of reading more instructions after `done` ones.
pub open spec fn ops_after(done: Seq<OpView>, r: Result<Seq<OpView>, Seq<char>>) -> Result<Seq<OpView>, Seq<char>> {
    match r {
        Ok(rest) => Ok(done + rest),
        Err(e) => Err(e),
    }
}

/// Decodes a bytecode file: the header, then the instructions it counts.
pub fn decode(bytes: &[u8]) -> (r: Result<Decoded, String>)
    ensures
        match decode_spec(bytes@) {
            Ok((magic, version, ops)) => r matches Ok(d) && d.magic@ == magic && d.version == version
                && ops_view(d.ops@) == ops,
            Err(e) => r matches Err(m) && m@ == e,
        },
{
    if bytes.len() < 4 {
        return Err(eof_error("missing header: "));
    }
    let mut magic: Vec<u8> = Vec::new();
    magic.push(bytes[0]);
    magic.push(bytes[1]);
    magic.push(bytes[2]);
    magic.push(bytes[3]);
    assert(magic@ =~= bytes@.subrange(0, 4));
    let (h, q0) = match read_u32s_exec(bytes, 4, 2) {
        Ok(x) => x,
        Err(e) => return Err(e),
    };
    let version = h[0];
    let count = h[1] as usize;
    let mut ops: Vec<ParsedOp> = Vec::new();
    let mut cur = q0;
    let mut i: usize = 0;
    assert(ops_view(ops@) =~= Seq::<OpView>::empty());
    assert(ops_after(Seq::empty(), read_ops_at(bytes@, q0 as int, 0, count as nat)) == read_ops_at(bytes@, q0 as int, 0, count as nat)) by {
        match read_ops_at(bytes@, q0 as int, 0, count as nat) {
            Ok(rest) => { assert(Seq::<OpView>::empty() + rest =~= rest); },
            Err(e) => {},
        }
    }
    while i < count
        invariant
            i <= count,
            cur <= bytes@.len(),
            ops@.len() == i,
            bytes@.len() >= 4,
            read_u32s(bytes@, 4, 2) == Ok::<(Seq<u32>, int), Seq<char>>((h@, q0 as int)),
            count == h@[1] as usize,
            magic@ == bytes@.subrange(0, 4),
            version == h@[0],
            read_ops_at(bytes@, q0 as int, 0, count as nat) == ops_after(ops_view(ops@), read_ops_at(bytes@, cur as int, i as nat, count as nat)),
        decreases count - i,
    {
        let ghost done = ops_view(ops@);
        match read_op_exec(bytes, cur, i) {
            Err(e) => {
                proof {
                    assert(read_ops_at(bytes@, cur as int, i as nat, count as nat)
                        == Err::<Seq<OpView>, Seq<char>>(e@));
                    assert(read_ops_at(bytes@, q0 as int, 0, count as nat) == Err::<Seq<OpView>, Seq<char>>(e@));
                    assert(read_u32s(bytes@, 4, 2) == Ok::<(Seq<u32>, int), Seq<char>>((h@, q0 as int)));
                    assert(h@[1] as nat == count as nat);
                }
                return Err(e);
            },
            Ok((op, q)) => {
                proof {
                    let rest = read_ops_at(bytes@, q as int, (i + 1) as nat, count as nat);
                    match rest {
                        Ok(xs) => {
                            assert(done + (seq![op_view(op)] + xs) =~= ops_view(ops@.push(op)) + xs);
                        },
                        Err(e) => {},
                    }
                }
                ops.push(op);
                cur = q;
                i += 1;
            },
        }
    }
    assert(ops_view(ops@) + Seq::<OpView>::empty() =~= ops_view(ops@));
    Ok(Decoded { magic, version, ops })
}

/// An index zero-padded to four digits (`{:04}`).
pub open spec fn index4(i: nat) -> Seq<char> {
    let d = nat_digits(i);
    if d.len() < 4 { Seq::new((4 - d.len()) as nat, |_j: int| '0') + d } else { d }
}

/// A register, `r` and its number.
pub open spec fn reg(x: u32) -> Seq<char> {
    "r"@ + nat_digits(x as nat)
}

/// The name of the label at instruction `t`, if there is one there.
pub open spec fn label_name(ops: Seq<OpView>, t: int) -> Option<Seq<char>> {
    if 0 <= t < ops.len() {
        match ops[t] {
            OpView::Label { name } => Some(name),
            _ => None,
        }
    } else {
        None
    }
}

/// A jump target: the name of the label there, else the number.
pub open spec fn target_text(ops: Seq<OpView>, t: u32) -> Seq<char> {
    match label_name(ops, t as int) {
        Some(n) => n,
        None => nat_digits(t as nat),
    }
}

/// Call arguments, registers separated by `, `.
pub open spec fn args_text(args: Seq<u32>) -> Seq<char>
    decreases args.len(),
{
    if args.len() == 0 {
        Seq::empty()
    } else if args.len() == 1 {
        reg(args[0])
    } else {
        args_text(args.drop_last()) + ", "@ + reg(args.last())
    }
}

/// The listing line of instruction `i`; `vt` is the text of its constant, if any.
pub open spec fn op_line(i: nat, op: OpView, ops: Seq<OpView>, vt: Seq<char>) -> Seq<char> {
    index4(i) + "  "@ + op_body(op, ops, vt) + "\n"@
}

/// The text of an instruction in the listing, after its index.
pub open spec fn op_body(op: OpView, ops: Seq<OpView>, vt: Seq<char>) -> Seq<char> {
    match op {
        OpView::LConst { dest, .. } => "LConst "@ + reg(dest) + " <- "@ + vt,
        OpView::LLocal { dest, local } => "LLocal "@ + reg(dest) + " <- local["@ + nat_digits(local as nat) + "]"@,
        OpView::SLocal { src, local } => "SLocal local["@ + nat_digits(local as nat) + "] <- "@ + reg(src),
        OpView::Bin { name, dest, a, b } => name + " "@ + reg(dest) + " <- "@ + reg(a) + " , "@ + reg(b),
        OpView::Compare { name, dest, a, b } => name + " "@ + reg(dest) + " <- "@ + reg(a) + " , "@ + reg(b),
        OpView::Not { dest, src } => "Not "@ + reg(dest) + " <- !"@ + reg(src),
        OpView::Inc { dest } => "Inc "@ + reg(dest) + " ++"@,
        OpView::Dec { dest } => "Dec "@ + reg(dest) + " --"@,
        OpView::Label { name } => "Label "@ + name,
        OpView::Jump { target } => "Jump "@ + target_text(ops, target),
        OpView::BrTrue { cond, target } => "BrTrue "@ + reg(cond) + " -> "@ + target_text(ops, target),
        OpView::BrFalse { cond, target } => "BrFalse "@ + reg(cond) + " -> "@ + target_text(ops, target),
        OpView::Halt => "Halt"@,
        OpView::AllocClosure { dest } => "AllocClosure "@ + reg(dest),
        OpView::CStore { clo, field, src } => "CStore clo["@ + reg(clo) + "]."@ + nat_digits(field as nat) + " <- "@ + reg(src),
        OpView::CLoad { dest, clo, field } => "CLoad "@ + reg(dest) + " <- clo["@ + reg(clo) + "]."@ + nat_digits(field as nat),
        OpView::Call { dest, func, args } => "Call "@ + reg(dest) + " <- "@ + reg(func) + "("@ + args_text(args) + ")"@,
        OpView::CallLabel { dest, label_index, args } => "CallLabel "@ + reg(dest) + " <- "@
            + match label_name(ops, label_index as int) {
                Some(n) => n,
                None => "L"@ + nat_digits(label_index as nat),
            } + "("@ + args_text(args) + ")"@,
        OpView::Ret { src } => "Ret "@ + reg(src),
    }
}

/// The listing lines of the first `k` instructions.
pub open spec fn op_lines(ops: Seq<OpView>, vts: Seq<Seq<char>>, k: nat) -> Seq<char>
    decreases k,
{
    if k == 0 || k > ops.len() {
        Seq::empty()
    } else {
        op_lines(ops, vts, (k - 1) as nat) + op_line((k - 1) as nat, ops[k - 1], ops, vts[k - 1])
    }
}

/// The listing of a decoded file: its magic, version and instruction count, a
/// blank line, then one line per instruction.
pub open spec fn listing(magic_text: Seq<char>, version: u32, ops: Seq<OpView>, vts: Seq<Seq<char>>) -> Seq<char> {
    "Magic: "@ + magic_text + "\n"@ + "Version: "@ + nat_digits(version as nat) + "\n"@
        + "Op count: "@ + nat_digits(ops.len()) + "\n\n"@ + op_lines(ops, vts, ops.len())
}

fn push_index4(s: &mut String, i: usize)
    ensures
        final(s)@ == old(s)@ + index4(i as nat),
{
    let d = crate::text::usize_to_string(i);
    let n = d.unicode_len();
    let mut k = n;
    while k < 4
        invariant
            n <= k <= 4 || (n > 4 && k == n),
            n == nat_digits(i as nat).len(),
            s@ == old(s)@ + Seq::new((k - n) as nat, |_j: int| '0'),
        decreases 4 - k,
    {
        push_char(s, '0');
        assert(s@ =~= old(s)@ + Seq::new((k + 1 - n) as nat, |_j: int| '0'));
        k += 1;
    }
    push_str(s, d.as_str());
    if n < 4 {
        assert(s@ =~= old(s)@ + index4(i as nat));
    } else {
        assert(s@ =~= old(s)@ + index4(i as nat));
    }
}

fn push_reg(s: &mut String, x: u32)
    ensures
        final(s)@ == old(s)@ + reg(x),
{
    push_str(s, "r");
    crate::text::push_u64_decimal(s, x as u64);
    assert(s@ =~= old(s)@ + reg(x));
}

fn push_u32(s: &mut String, x: u32)
    ensures
        final(s)@ == old(s)@ + nat_digits(x as nat),
{
    crate::text::push_u64_decimal(s, x as u64);
}

fn label_name_exec(ops: &Vec<ParsedOp>, t: u32) -> (r: Option<&String>)
    ensures
        match label_name(ops_view(ops@), t as int) {
            Some(n) => r matches Some(x) && x@ == n,
            None => r is None,
        },
{
    let t = t as usize;
    if t < ops.len() {
        match &ops[t] {
            ParsedOp::Label { name } => Some(name),
            _ => None,
        }
    } else {
        None
    }
}

fn push_target(s: &mut String, ops: &Vec<ParsedOp>, t: u32)
    ensures
        final(s)@ == old(s)@ + target_text(ops_view(ops@), t),
{
    match label_name_exec(ops, t) {
        Some(n) => push_str(s, n.as_str()),
        None => push_u32(s, t),
    }
}

fn push_args(s: &mut String, args: &Vec<u32>)
    ensures
        final(s)@ == old(s)@ + args_text(args@),
{
    let mut k: usize = 0;
    assert(args@.subrange(0, 0) =~= Seq::<u32>::empty());
    while k < args.len()
        invariant
            k <= args@.len(),
            s@ == old(s)@ + args_text(args@.subrange(0, k as int)),
        decreases args@.len() - k,
    {
        let ghost pre = args@.subrange(0, k as int + 1);
        assert(pre.drop_last() =~= args@.subrange(0, k as int));
        if k > 0 {
            push_str(s, ", ");
        }
        push_reg(s, args[k]);
        assert(s@ =~= old(s)@ + args_text(pre));
        k += 1;
    }
    assert(args@.subrange(0, k as int) =~= args@);
}

/// The listing line of instruction `i` of `ops`; `value_text` is the text of its
/// constant (for a constant load).
#[verifier::rlimit(60)]
pub fn render_op(i: usize, ops: &Vec<ParsedOp>, value_text: &str) -> (r: String)
    requires
        i < ops@.len(),
    ensures
        r@ == op_line(i as nat, ops_view(ops@)[i as int], ops_view(ops@), value_text@),
{
    let mut s = String::new();
    push_index4(&mut s, i);
    push_str(&mut s, "  ");
    let ghost head = s@;
    match &ops[i] {
        ParsedOp::LConst { dest, .. } => {
            push_str(&mut s, "LConst "); push_reg(&mut s, *dest); push_str(&mut s, " <- "); push_str(&mut s, value_text);
        },
        ParsedOp::LLocal { dest, local } => {
            push_str(&mut s, "LLocal "); push_reg(&mut s, *dest); push_str(&mut s, " <- local[");
            push_u32(&mut s, *local); push_str(&mut s, "]");
        },
        ParsedOp::SLocal { src, local } => {
            push_str(&mut s, "SLocal local["); push_u32(&mut s, *local); push_str(&mut s, "] <- "); push_reg(&mut s, *src);
        },
        ParsedOp::Bin { name, dest, a, b } => {
            push_str(&mut s, name); push_str(&mut s, " "); push_reg(&mut s, *dest); push_str(&mut s, " <- ");
            push_reg(&mut s, *a); push_str(&mut s, " , "); push_reg(&mut s, *b);
        },
        ParsedOp::Compare { name, dest, a, b } => {
            push_str(&mut s, name); push_str(&mut s, " "); push_reg(&mut s, *dest); push_str(&mut s, " <- ");
            push_reg(&mut s, *a); push_str(&mut s, " , "); push_reg(&mut s, *b);
        },
        ParsedOp::Not { dest, src } => {
            push_str(&mut s, "Not "); push_reg(&mut s, *dest); push_str(&mut s, " <- !"); push_reg(&mut s, *src);
        },
        ParsedOp::Inc { dest } => {
            push_str(&mut s, "Inc "); push_reg(&mut s, *dest); push_str(&mut s, " ++");
        },
        ParsedOp::Dec { dest } => {
            push_str(&mut s, "Dec "); push_reg(&mut s, *dest); push_str(&mut s, " --");
        },
        ParsedOp::Label { name } => {
            push_str(&mut s, "Label "); push_str(&mut s, name.as_str());
        },
        ParsedOp::Jump { target } => {
            push_str(&mut s, "Jump "); push_target(&mut s, ops, *target);
        },
        ParsedOp::BrTrue { cond, target } => {
            push_str(&mut s, "BrTrue "); push_reg(&mut s, *cond); push_str(&mut s, " -> "); push_target(&mut s, ops, *target);
        },
        ParsedOp::BrFalse { cond, target } => {
            push_str(&mut s, "BrFalse "); push_reg(&mut s, *cond); push_str(&mut s, " -> "); push_target(&mut s, ops, *target);
        },
        ParsedOp::Halt => {
            push_str(&mut s, "Halt");
        },
        ParsedOp::AllocClosure { dest } => {
            push_str(&mut s, "AllocClosure "); push_reg(&mut s, *dest);
        },
        ParsedOp::CStore { clo, field, src } => {
            push_str(&mut s, "CStore clo["); push_reg(&mut s, *clo); push_str(&mut s, "].");
            push_u32(&mut s, *field); push_str(&mut s, " <- "); push_reg(&mut s, *src);
        },
        ParsedOp::CLoad { dest, clo, field } => {
            push_str(&mut s, "CLoad "); push_reg(&mut s, *dest); push_str(&mut s, " <- clo[");
            push_reg(&mut s, *clo); push_str(&mut s, "]."); push_u32(&mut s, *field);
        },
        ParsedOp::Call { dest, func, args } => {
            push_str(&mut s, "Call "); push_reg(&mut s, *dest); push_str(&mut s, " <- "); push_reg(&mut s, *func);
            push_str(&mut s, "("); push_args(&mut s, args); push_str(&mut s, ")");
        },
        ParsedOp::CallLabel { dest, label_index, args } => {
            push_str(&mut s, "CallLabel "); push_reg(&mut s, *dest); push_str(&mut s, " <- ");
            match label_name_exec(ops, *label_index) {
                Some(n) => push_str(&mut s, n.as_str()),
                None => { push_str(&mut s, "L"); push_u32(&mut s, *label_index); },
            }
            push_str(&mut s, "("); push_args(&mut s, args); push_str(&mut s, ")");
        },
        ParsedOp::Ret { src } => {
            push_str(&mut s, "Ret "); push_reg(&mut s, *src);
        },
    }
    assert(s@ =~= head + op_body(ops_view(ops@)[i as int], ops_view(ops@), value_text@));
    push_str(&mut s, "\n");
    assert(s@ =~= op_line(i as nat, ops_view(ops@)[i as int], ops_view(ops@), value_text@));
    s
}

/// The listing of a decoded file; `magic_text` is the text of its magic bytes and
/// `value_texts` holds the text of each instruction's constant.
pub fn render_listing(magic_text: &str, d: &Decoded, value_texts: &Vec<String>) -> (r: String)
    requires
        value_texts@.len() == d.ops@.len(),
    ensures
        r@ == listing(magic_text@, d.version, ops_view(d.ops@), value_texts@.map_values(|t: String| t@)),
{
    let ghost vts = value_texts@.map_values(|t: String| t@);
    let ghost ov = ops_view(d.ops@);
    let mut s = String::from_str("Magic: ");
    push_str(&mut s, magic_text);
    push_str(&mut s, "\n");
    push_str(&mut s, "Version: ");
    push_u32(&mut s, d.version);
    push_str(&mut s, "\n");
    push_str(&mut s, "Op count: ");
    crate::text::push_usize_decimal(&mut s, d.ops.len());
    push_str(&mut s, "\n\n");
    let ghost header = s@;
    let mut i: usize = 0;
    while i < d.ops.len()
        invariant
            i <= d.ops@.len(),
            value_texts@.len() == d.ops@.len(),
            vts == value_texts@.map_values(|t: String| t@),
            ov == ops_view(d.ops@),
            s@ == header + op_lines(ov, vts, i as nat),
        decreases d.ops@.len() - i,
    {
        let line = render_op(i, &d.ops, value_texts[i].as_str());
        push_str(&mut s, line.as_str());
        assert(s@ =~= header + op_lines(ov, vts, (i + 1) as nat));
        i += 1;
    }
    assert(s@ =~= listing(magic_text@, d.version, ov, vts));
    s
}

} // verus!
