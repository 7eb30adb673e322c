//! Constant values of the slot-based IR, and their mathematical view.
use vstd::prelude::*;

verus! {

/// A constant operand of the IR. Floating-point constants are carried by their
/// IEEE-754 bit pattern; the library never computes with them.
#[derive(Debug)]
pub enum OpValue {
    Int(i64),
    Float(u64),
    Bool(bool),
    Str(String),
    Array(Vec<OpValue>),
    Null,
}

/// The mathematical value of an `OpValue`: strings as character sequences, arrays
/// as sequences of values.
pub enum ConstVal {
    Int(i64),
    Float(u64),
    Bool(bool),
    Str(Seq<char>),
    Array(Seq<ConstVal>),
    Null,
}

/// What a constant denotes.
pub open spec fn const_view(v: OpValue) -> ConstVal
    decreases v, 0nat,
{
    match v {
        OpValue::Int(i) => ConstVal::Int(i),
        OpValue::Float(b) => ConstVal::Float(b),
        OpValue::Bool(b) => ConstVal::Bool(b),
        OpValue::Str(s) => ConstVal::Str(s@),
        OpValue::Array(a) => ConstVal::Array(const_views(a@)),
        OpValue::Null => ConstVal::Null,
    }
}

/// What a list of constants denotes.
pub open spec fn const_views(s: Seq<OpValue>) -> Seq<ConstVal>
    decreases s, s.len(),
{
    if s.len() == 0 {
        Seq::empty()
    } else {
        seq![const_view(s[0])] + const_views(s.drop_first())
    }
}

impl View for OpValue {
    type V = ConstVal;

    open spec fn view(&self) -> ConstVal {
        const_view(*self)
    }
}

/// The number of constants in a constant (an array counts with its elements).
pub open spec fn const_size(v: OpValue) -> nat
    decreases v, 0nat,
{
    match v {
        OpValue::Array(a) => 1 + consts_size(a@),
        _ => 1,
    }
}

/// The number of constants in a list of constants.
pub open spec fn consts_size(s: Seq<OpValue>) -> nat
    decreases s, s.len(),
{
    if s.len() == 0 { 0 } else { const_size(s[0]) + consts_size(s.drop_first()) }
}

proof fn lemma_consts_size(s: Seq<OpValue>, i: int)
    requires
        0 <= i < s.len(),
    ensures
        const_size(s[i]) <= consts_size(s),
    decreases s.len(),
{
    if i > 0 {
        lemma_consts_size(s.drop_first(), i - 1);
    }
}

/// A list of constants denotes as many values, element by element.
pub proof fn lemma_const_views_index(s: Seq<OpValue>, i: int)
    requires
        0 <= i < s.len(),
    ensures
        const_views(s).len() == s.len(),
        const_views(s)[i] == const_view(s[i]),
    decreases s.len(),
{
    lemma_const_views_len(s);
    if i > 0 {
        lemma_const_views_index(s.drop_first(), i - 1);
    }
}

/// A list of constants denotes as many values.
pub proof fn lemma_const_views_len(s: Seq<OpValue>)
    ensures
        const_views(s).len() == s.len(),
    decreases s.len(),
{
    if s.len() > 0 {
        lemma_const_views_len(s.drop_first());
    }
}

/// Appending a constant appends what it denotes.
pub proof fn lemma_const_views_push(s: Seq<OpValue>, v: OpValue)
    ensures
        const_views(s.push(v)) == const_views(s).push(const_view(v)),
    decreases s.len(),
{
    if s.len() == 0 {
        assert(s.push(v).drop_first() =~= Seq::<OpValue>::empty());
        assert(const_views(s.push(v).drop_first()) == Seq::<ConstVal>::empty());
        assert(const_views(s.push(v)) =~= seq![const_view(v)]);
        assert(const_views(s) == Seq::<ConstVal>::empty());
    } else {
        assert(s.push(v).drop_first() =~= s.drop_first().push(v));
        lemma_const_views_push(s.drop_first(), v);
        assert(const_views(s.push(v)) =~= const_views(s).push(const_view(v)));
    }
}

impl Clone for OpValue {
    fn clone(&self) -> (r: Self)
        ensures
            r@ == self@,
    {
        self.duplicate()
    }
}

impl OpValue {
    /// A copy of the value.
    pub fn duplicate(&self) -> (r: OpValue)
        ensures
            r@ == self@,
        decreases const_size(*self),
    {
        match self {
            OpValue::Int(i) => OpValue::Int(*i),
            OpValue::Float(b) => OpValue::Float(*b),
            OpValue::Bool(b) => OpValue::Bool(*b),
            OpValue::Str(s) => OpValue::Str(s.clone()),
            OpValue::Array(a) => {
                let mut out: Vec<OpValue> = Vec::new();
                let mut i: usize = 0;
                while i < a.len()
                    invariant
                        i <= a@.len(),
                        *self == OpValue::Array(*a),
                        const_views(out@) == const_views(a@.subrange(0, i as int)),
                    decreases a@.len() - i,
                {
                    proof { lemma_consts_size(a@, i as int); }
                    let x = a[i].duplicate();
                    proof {
                        lemma_const_views_push(out@, x);
                        lemma_const_views_push(a@.subrange(0, i as int), a@[i as int]);
                        assert(a@.subrange(0, i as int).push(a@[i as int]) =~= a@.subrange(0, i as int + 1));
                    }
                    out.push(x);
                    i += 1;
                }
                assert(a@.subrange(0, i as int) =~= a@);
                OpValue::Array(out)
            },
            OpValue::Null => OpValue::Null,
        }
    }

    /// Whether two constants denote the same value.
    pub fn same_as(&self, other: &OpValue) -> (r: bool)
        ensures
            r == (self@ == other@),
        decreases const_size(*self),
    {
        match (self, other) {
            (OpValue::Int(x), OpValue::Int(y)) => *x == *y,
            (OpValue::Float(x), OpValue::Float(y)) => *x == *y,
            (OpValue::Bool(x), OpValue::Bool(y)) => *x == *y,
            (OpValue::Str(x), OpValue::Str(y)) => crate::text::str_eq(x.as_str(), y.as_str()),
            (OpValue::Null, OpValue::Null) => true,
            (OpValue::Array(x), OpValue::Array(y)) => {
                proof {
                    lemma_const_views_len(x@);
                    lemma_const_views_len(y@);
                }
                if x.len() != y.len() {
                    assert(const_views(x@).len() != const_views(y@).len());
                    return false;
                }
                let mut i: usize = 0;
                while i < x.len()
                    invariant
                        i <= x@.len(),
                        x@.len() == y@.len(),
                        *self == OpValue::Array(*x),
                        *other == OpValue::Array(*y),
                        forall|j: int| 0 <= j < i ==> const_view(#[trigger] x@[j]) == const_view(y@[j]),
                    decreases x@.len() - i,
                {
                    proof { lemma_consts_size(x@, i as int); }
                    if !x[i].same_as(&y[i]) {
                        proof {
                            lemma_const_views_index(x@, i as int);
                            lemma_const_views_index(y@, i as int);
                            assert(const_views(x@)[i as int] != const_views(y@)[i as int]);
                        }
                        return false;
                    }
                    i += 1;
                }
                proof {
                    assert forall|j: int| 0 <= j < x@.len() implies const_views(x@)[j] == const_views(y@)[j] by {
                        lemma_const_views_index(x@, j);
                        lemma_const_views_index(y@, j);
                    }
                    assert(const_views(x@) =~= const_views(y@));
                }
                true
            },
            _ => false,
        }
    }
}

} // verus!
