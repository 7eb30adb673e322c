//! What a constant of the register-based IR denotes, its copies and its equality.
use vstd::prelude::*;
use crate::ir::irop::Value;

verus! {

/// The meaning of a `Value`: its variant and contents, strings by their characters.
pub enum ValueView {
    Int(i64),
    Float(u64),
    Bool(bool),
    Str(Seq<char>),
    Symbol(Seq<char>),
    Array(Seq<ValueView>),
    Null,
}

/// What a value denotes.
pub open spec fn value_view(v: Value) -> ValueView
    decreases v, 0nat,
{
    match v {
        Value::Int(i) => ValueView::Int(i),
        Value::Float(b) => ValueView::Float(b),
        Value::Bool(b) => ValueView::Bool(b),
        Value::Str(s) => ValueView::Str(s@),
        Value::Symbol(s) => ValueView::Symbol(s@),
        Value::Array(a) => ValueView::Array(values_view(a@)),
        Value::Null => ValueView::Null,
    }
}

/// What a list of values denotes.
pub open spec fn values_view(s: Seq<Value>) -> Seq<ValueView>
    decreases s, s.len(),
{
    if s.len() == 0 {
        Seq::empty()
    } else {
        seq![value_view(s[0])] + values_view(s.drop_first())
    }
}

/// The number of values in a value (an array counts with its elements).
pub open spec fn value_size(v: Value) -> nat
    decreases v, 0nat,
{
    match v {
        Value::Array(a) => 1 + values_size(a@),
        _ => 1,
    }
}

/// The number of values in a list of values.
pub open spec fn values_size(s: Seq<Value>) -> nat
    decreases s, s.len(),
{
    if s.len() == 0 { 0 } else { value_size(s[0]) + values_size(s.drop_first()) }
}

proof fn lemma_values_size(s: Seq<Value>, i: int)
    requires
        0 <= i < s.len(),
    ensures
        value_size(s[i]) <= values_size(s),
    decreases s.len(),
{
    if i > 0 {
        lemma_values_size(s.drop_first(), i - 1);
    }
}

/// Appending a value appends what it denotes.
pub proof fn lemma_values_view_push(s: Seq<Value>, v: Value)
    ensures
        values_view(s.push(v)) == values_view(s).push(value_view(v)),
    decreases s.len(),
{
    if s.len() == 0 {
        assert(s.push(v).drop_first() =~= Seq::<Value>::empty());
        assert(values_view(s.push(v).drop_first()) == Seq::<ValueView>::empty());
        assert(values_view(s.push(v)) =~= seq![value_view(v)]);
        assert(values_view(s) == Seq::<ValueView>::empty());
    } else {
        assert(s.push(v).drop_first() =~= s.drop_first().push(v));
        lemma_values_view_push(s.drop_first(), v);
        assert(values_view(s.push(v)) =~= values_view(s).push(value_view(v)));
    }
}

/// The values of a list, element by element.
pub proof fn lemma_values_view_index(s: Seq<Value>, i: int)
    requires
        0 <= i < s.len(),
    ensures
        values_view(s).len() == s.len(),
        values_view(s)[i] == value_view(s[i]),
    decreases s.len(),
{
    lemma_values_view_len(s);
    if i > 0 {
        lemma_values_view_index(s.drop_first(), i - 1);
    }
}

/// A list of values denotes as many values.
pub proof fn lemma_values_view_len(s: Seq<Value>)
    ensures
        values_view(s).len() == s.len(),
    decreases s.len(),
{
    if s.len() > 0 {
        lemma_values_view_len(s.drop_first());
    }
}

/// Whether the IEEE-754 double with bits `b` is a NaN.
pub open spec fn float_is_nan(b: u64) -> bool {
    (b >> 52u64) & 0x7ffu64 == 0x7ffu64 && b & 0xf_ffff_ffff_ffffu64 != 0
}

/// Whether the IEEE-754 double with bits `b` is a zero of either sign.
pub open spec fn float_is_zero(b: u64) -> bool {
    b & 0x7fff_ffff_ffff_ffffu64 == 0
}

/// Floating-point equality on bits: no NaN equals anything, and the two zeros
/// are equal.
pub open spec fn float_bits_eq(a: u64, b: u64) -> bool {
    !float_is_nan(a) && !float_is_nan(b) && (a == b || (float_is_zero(a) && float_is_zero(b)))
}

/// Equality of values as `==` compares them: same variant and equal contents,
/// floats by floating-point equality, arrays element by element.
pub open spec fn view_eq(a: ValueView, b: ValueView) -> bool
    decreases a, 0nat,
{
    match (a, b) {
        (ValueView::Int(x), ValueView::Int(y)) => x == y,
        (ValueView::Float(x), ValueView::Float(y)) => float_bits_eq(x, y),
        (ValueView::Bool(x), ValueView::Bool(y)) => x == y,
        (ValueView::Str(x), ValueView::Str(y)) => x == y,
        (ValueView::Symbol(x), ValueView::Symbol(y)) => x == y,
        (ValueView::Array(x), ValueView::Array(y)) => views_eq(x, y),
        (ValueView::Null, ValueView::Null) => true,
        _ => false,
    }
}

/// Element-wise equality of two lists of values.
pub open spec fn views_eq(x: Seq<ValueView>, y: Seq<ValueView>) -> bool
    decreases x, x.len(),
{
    if x.len() != y.len() {
        false
    } else if x.len() == 0 {
        true
    } else {
        view_eq(x[0], y[0]) && views_eq(x.drop_first(), y.drop_first())
    }
}

fn float_eq(a: u64, b: u64) -> (r: bool)
    ensures
        r == float_bits_eq(a, b),
{
    let a_nan = (a >> 52u64) & 0x7ffu64 == 0x7ffu64 && a & 0xf_ffff_ffff_ffffu64 != 0;
    let b_nan = (b >> 52u64) & 0x7ffu64 == 0x7ffu64 && b & 0xf_ffff_ffff_ffffu64 != 0;
    let zeros = a & 0x7fff_ffff_ffff_ffffu64 == 0 && b & 0x7fff_ffff_ffff_ffffu64 == 0;
    !a_nan && !b_nan && (a == b || zeros)
}

impl Value {
    /// A deep copy of the value.
    pub fn duplicate(&self) -> (r: Value)
        ensures
            value_view(r) == value_view(*self),
        decreases value_size(*self),
    {
        match self {
            Value::Int(i) => Value::Int(*i),
            Value::Float(b) => Value::Float(*b),
            Value::Bool(b) => Value::Bool(*b),
            Value::Str(s) => Value::Str(s.clone()),
            Value::Symbol(s) => Value::Symbol(s.clone()),
            Value::Array(a) => {
                let mut out: Vec<Value> = Vec::new();
                let mut i: usize = 0;
                while i < a.len()
                    invariant
                        i <= a@.len(),
                        *self == Value::Array(*a),
                        values_view(out@) == values_view(a@.subrange(0, i as int)),
                    decreases a@.len() - i,
                {
                    proof { lemma_values_size(a@, i as int); }
                    let x = a[i].duplicate();
                    proof {
                        lemma_values_view_push(out@, x);
                        lemma_values_view_push(a@.subrange(0, i as int), a@[i as int]);
                        assert(a@.subrange(0, i as int).push(a@[i as int]) =~= a@.subrange(0, i as int + 1));
                    }
                    out.push(x);
                    i += 1;
                }
                assert(a@.subrange(0, i as int) =~= a@);
                Value::Array(out)
            },
            Value::Null => Value::Null,
        }
    }

    /// Whether two values are equal as `==` compares them.
    pub fn equals(&self, other: &Value) -> (r: bool)
        ensures
            r == view_eq(value_view(*self), value_view(*other)),
        decreases value_size(*self),
    {
        match (self, other) {
            (Value::Int(x), Value::Int(y)) => *x == *y,
            (Value::Float(x), Value::Float(y)) => float_eq(*x, *y),
            (Value::Bool(x), Value::Bool(y)) => *x == *y,
            (Value::Str(x), Value::Str(y)) => crate::text::str_eq(x.as_str(), y.as_str()),
            (Value::Symbol(x), Value::Symbol(y)) => crate::text::str_eq(x.as_str(), y.as_str()),
            (Value::Array(x), Value::Array(y)) => {
                proof {
                    lemma_values_view_len(x@);
                    lemma_values_view_len(y@);
                }
                if x.len() != y.len() {
                    return false;
                }
                let mut i: usize = x.len();
                proof {
                    assert(values_view(x@).subrange(i as int, i as int) =~= Seq::<ValueView>::empty());
                    assert(values_view(y@).subrange(i as int, i as int) =~= Seq::<ValueView>::empty());
                }
                while i > 0
                    invariant
                        i <= x@.len(),
                        x@.len() == y@.len(),
                        values_view(x@).len() == x@.len(),
                        values_view(y@).len() == y@.len(),
                        *self == Value::Array(*x),
                        *other == Value::Array(*y),
                        views_eq(values_view(x@).subrange(i as int, x@.len() as int),
                            values_view(y@).subrange(i as int, y@.len() as int)),
                    decreases i,
                {
                    let j = i - 1;
                    proof {
                        lemma_values_size(x@, j as int);
                        lemma_values_view_index(x@, j as int);
                        lemma_values_view_index(y@, j as int);
                    }
                    let e = x[j].equals(&y[j]);
                    let ghost xs = values_view(x@).subrange(j as int, x@.len() as int);
                    let ghost ys = values_view(y@).subrange(j as int, y@.len() as int);
                    assert(xs.drop_first() =~= values_view(x@).subrange(i as int, x@.len() as int));
                    assert(ys.drop_first() =~= values_view(y@).subrange(i as int, y@.len() as int));
                    if !e {
                        proof {
                            assert(!views_eq(xs, ys));
                            lemma_views_eq_suffix(values_view(x@), values_view(y@), j as int);
                        }
                        return false;
                    }
                    i = j;
                }
                assert(values_view(x@).subrange(0, x@.len() as int) =~= values_view(x@));
                assert(values_view(y@).subrange(0, y@.len() as int) =~= values_view(y@));
                true
            },
            (Value::Null, Value::Null) => true,
            _ => false,
        }
    }
}

/// Lists that differ on a suffix are not equal.
proof fn lemma_views_eq_suffix(x: Seq<ValueView>, y: Seq<ValueView>, j: int)
    requires
        x.len() == y.len(),
        0 <= j <= x.len(),
        !views_eq(x.subrange(j, x.len() as int), y.subrange(j, y.len() as int)),
    ensures
        !views_eq(x, y),
    decreases j,
{
    if j > 0 {
        assert(x.drop_first().subrange(j - 1, x.len() - 1) =~= x.subrange(j, x.len() as int));
        assert(y.drop_first().subrange(j - 1, y.len() - 1) =~= y.subrange(j, y.len() as int));
        lemma_views_eq_suffix(x.drop_first(), y.drop_first(), j - 1);
    } else {
        assert(x.subrange(0, x.len() as int) =~= x);
        assert(y.subrange(0, y.len() as int) =~= y);
    }
}

} // verus!
