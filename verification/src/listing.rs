//! The text of a disassembly listing: each constant as the listing writes it, and
//! the whole listing of a decoded file. Floating-point constants are written from
//! a table of texts by their bits, given by the caller.
use vstd::prelude::*;
use crate::ir::irop::Value;
use crate::ir::valview::{ValueView, value_view, values_view, lemma_values_view_index, lemma_values_view_len};
use crate::text::{push_str, push_i64_decimal, int_digits};
use crate::disasm::{Decoded, OpView, ParsedOp, ops_view, listing, render_listing};

verus! {

/// The text given for the float with bits `b`: the first entry at or after `j`
/// with those bits (empty when there is none).
pub open spec fn float_text_from(t: Seq<(u64, Seq<char>)>, b: u64, j: int) -> Seq<char>
    decreases t.len() - j,
{
    if j < 0 || j >= t.len() {
        Seq::empty()
    } else if t[j].0 == b {
        t[j].1
    } else {
        float_text_from(t, b, j + 1)
    }
}

/// A constant as the listing writes it.
pub open spec fn value_text_of(v: ValueView, t: Seq<(u64, Seq<char>)>) -> Seq<char>
    decreases v, 0nat,
{
    match v {
        ValueView::Int(i) => "Int("@ + int_digits(i as int) + ")"@,
        ValueView::Float(b) => "Float("@ + float_text_from(t, b, 0) + ")"@,
        ValueView::Bool(b) => "Bool("@ + (if b { "true"@ } else { "false"@ }) + ")"@,
        ValueView::Str(s) => "Str(\""@ + s + "\")"@,
        ValueView::Symbol(s) => "Symbol("@ + s + ")"@,
        ValueView::Array(a) => "Array(["@ + values_text_of(a, t) + "])"@,
        ValueView::Null => "Null"@,
    }
}

/// The constants of a list, joined by `", "`.
pub open spec fn values_text_of(a: Seq<ValueView>, t: Seq<(u64, Seq<char>)>) -> Seq<char>
    decreases a, a.len(),
{
    if a.len() == 0 {
        Seq::empty()
    } else if a.len() == 1 {
        value_text_of(a[0], t)
    } else {
        values_text_of(a.drop_last(), t) + ", "@ + value_text_of(a[a.len() - 1], t)
    }
}

/// The bits of the floats of a constant, in the order the listing writes them.
pub open spec fn float_bits_of(v: ValueView) -> Seq<u64>
    decreases v, 0nat,
{
    match v {
        ValueView::Float(b) => seq![b],
        ValueView::Array(a) => floats_bits_of(a),
        _ => Seq::empty(),
    }
}

/// The bits of the floats of a list of constants, in order.
pub open spec fn floats_bits_of(a: Seq<ValueView>) -> Seq<u64>
    decreases a, a.len(),
{
    if a.len() == 0 { Seq::empty() } else { floats_bits_of(a.drop_last()) + float_bits_of(a[a.len() - 1]) }
}

/// The text of an instruction's constant (empty for an instruction without one).
pub open spec fn op_value_text(o: OpView, t: Seq<(u64, Seq<char>)>) -> Seq<char> {
    match o {
        OpView::LConst { val, .. } => value_text_of(val, t),
        _ => Seq::empty(),
    }
}

/// The float bits of the constants of the first `n` instructions, in order.
pub open spec fn ops_float_bits(ops: Seq<OpView>, n: int) -> Seq<u64>
    decreases n,
{
    if n <= 0 || n > ops.len() {
        Seq::empty()
    } else {
        ops_float_bits(ops, n - 1) + match ops[n - 1] {
            OpView::LConst { val, .. } => float_bits_of(val),
            _ => Seq::empty(),
        }
    }
}

/// The float table by what it holds.
pub open spec fn float_table(t: Seq<(u64, String)>) -> Seq<(u64, Seq<char>)> {
    t.map_values(|e: (u64, String)| (e.0, e.1@))
}

/// What `String::from_utf8_lossy` makes of a byte string.
pub uninterp spec fn utf8_lossy(bytes: Seq<u8>) -> Seq<char>;

/// Decodes UTF-8 bytes, putting U+FFFD in place of each invalid sequence
/// (`String::from_utf8_lossy`): the decoded characters when the bytes are valid
/// UTF-8; otherwise a text that depends on the bytes alone.
#[verifier::external_body]
fn utf8_lossy_text(bytes: &[u8]) -> (r: String)
    ensures
        r@ == utf8_lossy(bytes@),
        vstd::utf8::valid_utf8(bytes@) ==> r@ == vstd::utf8::decode_utf8(bytes@),
{
    String::from_utf8_lossy(bytes).into_owned()
}

fn float_text(t: &Vec<(u64, String)>, b: u64) -> (r: String)
    ensures
        r@ == float_text_from(float_table(t@), b, 0),
{
    let ghost ft = float_table(t@);
    let mut j: usize = 0;
    while j < t.len()
        invariant
            j <= t@.len(),
            ft == float_table(t@),
            float_text_from(ft, b, 0) == float_text_from(ft, b, j as int),
        decreases t@.len() - j,
    {
        assert(ft[j as int] == (t@[j as int].0, t@[j as int].1@));
        if t[j].0 == b {
            return t[j].1.clone();
        }
        j += 1;
    }
    String::new()
}

/// A constant as the listing writes it; the text of a float is looked up by its
/// bits in `floats`.
pub fn value_text(v: &Value, floats: &Vec<(u64, String)>) -> (r: String)
    ensures
        r@ == value_text_of(value_view(*v), float_table(floats@)),
    decreases v,
{
    let mut out = String::new();
    match v {
        Value::Int(i) => {
            push_str(&mut out, "Int(");
            push_i64_decimal(&mut out, *i);
            push_str(&mut out, ")");
        },
        Value::Float(b) => {
            push_str(&mut out, "Float(");
            let f = float_text(floats, *b);
            push_str(&mut out, f.as_str());
            push_str(&mut out, ")");
        },
        Value::Bool(b) => {
            push_str(&mut out, "Bool(");
            if *b { push_str(&mut out, "true"); } else { push_str(&mut out, "false"); }
            push_str(&mut out, ")");
        },
        Value::Str(s) => {
            push_str(&mut out, "Str(\"");
            push_str(&mut out, s.as_str());
            push_str(&mut out, "\")");
        },
        Value::Symbol(s) => {
            push_str(&mut out, "Symbol(");
            push_str(&mut out, s.as_str());
            push_str(&mut out, ")");
        },
        Value::Array(a) => {
            push_str(&mut out, "Array([");
            let ghost head = out@;
            let ghost ft = float_table(floats@);
            let ghost av = values_view(a@);
            proof { lemma_values_view_len(a@); }
            let mut k: usize = 0;
            while k < a.len()
                invariant
                    k <= a@.len(),
                    av == values_view(a@),
                    av.len() == a@.len(),
                    ft == float_table(floats@),
                    *v == Value::Array(*a),
                    out@ == head + values_text_of(av.subrange(0, k as int), ft),
                decreases a@.len() - k,
            {
                proof {
                    lemma_values_view_index(a@, k as int);
                    assert(av.subrange(0, k + 1).drop_last() =~= av.subrange(0, k as int));
                    assert(av.subrange(0, k + 1)[k as int] == av[k as int]);
                }
                if k > 0 {
                    push_str(&mut out, ", ");
                }
                assert(decreases_to!(*v => a@[k as int])) by {
                    assert(decreases_to!(*v => (*v)->Array_0));
                    assert((*v)->Array_0 == *a);
                    assert(decreases_to!(*a => a@));
                    assert(decreases_to!(a@ => a@[k as int]));
                }
                let e = value_text(&a[k], floats);
                push_str(&mut out, e.as_str());
                proof {
                    if k == 0 {
                        assert(av.subrange(0, 0).len() == 0);
                        assert(values_text_of(av.subrange(0, 0), ft) == Seq::<char>::empty());
                        assert(out@ =~= head + values_text_of(av.subrange(0, 1), ft));
                    } else {
                        assert(out@ =~= head + values_text_of(av.subrange(0, k + 1), ft));
                    }
                }
                k += 1;
            }
            assert(av.subrange(0, k as int) =~= av);
            push_str(&mut out, "])");
        },
        Value::Null => {
            push_str(&mut out, "Null");
        },
    }
    out
}

/// The bits of the floats of a constant, in the order the listing writes them.
pub fn float_bits(v: &Value) -> (r: Vec<u64>)
    ensures
        r@ == float_bits_of(value_view(*v)),
    decreases v,
{
    match v {
        Value::Float(b) => {
            let mut r = Vec::new();
            r.push(*b);
            assert(r@ =~= seq![*b]);
            r
        },
        Value::Array(a) => {
            let ghost av = values_view(a@);
            proof { lemma_values_view_len(a@); }
            let mut r: Vec<u64> = Vec::new();
            let mut k: usize = 0;
            while k < a.len()
                invariant
                    k <= a@.len(),
                    av == values_view(a@),
                    av.len() == a@.len(),
                    *v == Value::Array(*a),
                    r@ == floats_bits_of(av.subrange(0, k as int)),
                decreases a@.len() - k,
            {
                proof {
                    lemma_values_view_index(a@, k as int);
                    assert(av.subrange(0, k + 1).drop_last() =~= av.subrange(0, k as int));
                }
                assert(decreases_to!(*v => a@[k as int])) by {
                    assert(decreases_to!(*v => (*v)->Array_0));
                    assert((*v)->Array_0 == *a);
                    assert(decreases_to!(*a => a@));
                    assert(decreases_to!(a@ => a@[k as int]));
                }
                let mut e = float_bits(&a[k]);
                r.append(&mut e);
                k += 1;
            }
            assert(av.subrange(0, k as int) =~= av);
            r
        },
        _ => Vec::new(),
    }
}

/// The bits of every float among the constants of a decoded file, in order; the
/// caller gives their texts to `listing_text`.
pub fn listing_floats(d: &Decoded) -> (r: Vec<u64>)
    ensures
        r@ == ops_float_bits(ops_view(d.ops@), d.ops@.len() as int),
{
    let ghost ov = ops_view(d.ops@);
    let mut r: Vec<u64> = Vec::new();
    let mut i: usize = 0;
    while i < d.ops.len()
        invariant
            i <= d.ops@.len(),
            ov == ops_view(d.ops@),
            r@ == ops_float_bits(ov, i as int),
        decreases d.ops@.len() - i,
    {
        match &d.ops[i] {
            ParsedOp::LConst { val, .. } => {
                let mut e = float_bits(val);
                r.append(&mut e);
            },
            _ => {},
        }
        i += 1;
    }
    r
}

/// The listing of a decoded file: its magic bytes as text (invalid UTF-8 replaced),
/// its version, and each instruction with its constant, floats written from
/// `floats` by their bits.
pub fn listing_text(d: &Decoded, floats: &Vec<(u64, String)>) -> (r: String)
    ensures
        r@ == listing(utf8_lossy(d.magic@), d.version, ops_view(d.ops@),
            ops_view(d.ops@).map_values(|o: OpView| op_value_text(o, float_table(floats@)))),
{
    let magic = utf8_lossy_text(d.magic.as_slice());
    let ghost ov = ops_view(d.ops@);
    let ghost ft = float_table(floats@);
    let mut texts: Vec<String> = Vec::new();
    let mut i: usize = 0;
    while i < d.ops.len()
        invariant
            i <= d.ops@.len(),
            ov == ops_view(d.ops@),
            ft == float_table(floats@),
            texts@.len() == i,
            forall|j: int| 0 <= j < i ==> (#[trigger] texts@[j])@ == op_value_text(ov[j], ft),
        decreases d.ops@.len() - i,
    {
        let t = match &d.ops[i] {
            ParsedOp::LConst { val, .. } => value_text(val, floats),
            _ => String::new(),
        };
        texts.push(t);
        i += 1;
    }
    let r = render_listing(magic.as_str(), d, &texts);
    proof {
        assert(texts@.map_values(|t: String| t@) =~= ov.map_values(|o: OpView| op_value_text(o, ft)));
    }
    r
}

} // verus!
