//! Small verified text helpers shared by the rendering code of the library:
//! decimal rendering of integers, string equality and string building.
use vstd::prelude::*;
use vstd::string::StrSliceExecFns;

verus! {

/// The decimal digit character for a digit value `d` (0..=9).
pub open spec fn digit_char(d: nat) -> char {
    if d == 0 { '0' }
    else if d == 1 { '1' }
    else if d == 2 { '2' }
    else if d == 3 { '3' }
    else if d == 4 { '4' }
    else if d == 5 { '5' }
    else if d == 6 { '6' }
    else if d == 7 { '7' }
    else if d == 8 { '8' }
    else { '9' }
}

/// The decimal rendering of a natural number, most significant digit first,
/// without leading zeros ("0" for zero).
pub open spec fn nat_digits(n: nat) -> Seq<char>
    decreases n,
{
    if n < 10 {
        seq![digit_char(n)]
    } else {
        nat_digits(n / 10).push(digit_char(n % 10))
    }
}

/// The decimal rendering of an integer: a leading '-' for negative values.
pub open spec fn int_digits(v: int) -> Seq<char> {
    if v < 0 {
        seq!['-'] + nat_digits((-v) as nat)
    } else {
        nat_digits(v as nat)
    }
}

/// Appends one character to a string (`String::push`).
#[verifier::external_body]
pub(crate) fn push_char(s: &mut String, c: char)
    ensures
        final(s)@ == old(s)@.push(c),
{
    s.push(c);
}

fn digit_to_char(d: u64) -> (c: char)
    requires
        d < 10,
    ensures
        c == digit_char(d as nat),
{
    if d == 0 { '0' }
    else if d == 1 { '1' }
    else if d == 2 { '2' }
    else if d == 3 { '3' }
    else if d == 4 { '4' }
    else if d == 5 { '5' }
    else if d == 6 { '6' }
    else if d == 7 { '7' }
    else if d == 8 { '8' }
    else { '9' }
}

/// Appends the decimal rendering of `n` to `s`.
pub fn push_u64_decimal(s: &mut String, n: u64)
    ensures
        final(s)@ == old(s)@ + nat_digits(n as nat),
    decreases n,
{
    if n < 10 {
        push_char(s, digit_to_char(n));
    } else {
        push_u64_decimal(s, n / 10);
        push_char(s, digit_to_char(n % 10));
        assert(old(s)@ + nat_digits(n as nat) =~= old(s)@ + nat_digits((n / 10) as nat)
            + seq![digit_char((n % 10) as nat)]);
    }
}

/// Appends the decimal rendering of a `usize` to `s`.
pub fn push_usize_decimal(s: &mut String, n: usize)
    ensures
        final(s)@ == old(s)@ + nat_digits(n as nat),
{
    push_u64_decimal(s, n as u64);
}

/// Appends the decimal rendering of an `i64` (with a leading '-' when negative).
pub fn push_i64_decimal(s: &mut String, v: i64)
    ensures
        final(s)@ == old(s)@ + int_digits(v as int),
{
    if v < 0 {
        push_char(s, '-');
        let m: u64 = if v == i64::MIN { 9223372036854775808u64 } else { (-v) as u64 };
        push_u64_decimal(s, m);
        assert(old(s)@ + int_digits(v as int) =~= old(s)@.push('-') + nat_digits(m as nat));
    } else {
        push_u64_decimal(s, v as u64);
    }
}

/// The decimal rendering of a `usize` as a new string.
pub fn usize_to_string(n: usize) -> (r: String)
    ensures
        r@ == nat_digits(n as nat),
{
    let mut s = String::new();
    push_usize_decimal(&mut s, n);
    assert(s@ =~= nat_digits(n as nat));
    s
}

/// Appends a string slice to `s`.
pub fn push_str(s: &mut String, t: &str)
    ensures
        final(s)@ == old(s)@ + t@,
{
    s.append(t);
}

/// Whether two string slices hold the same characters.
pub fn str_eq(a: &str, b: &str) -> (r: bool)
    ensures
        r == (a@ == b@),
{
    let sa = String::from_str(a);
    let sb = String::from_str(b);
    sa == sb
}

/// Lexicographic "less than" on character sequences, by code point.
pub open spec fn seq_char_lt(a: Seq<char>, b: Seq<char>) -> bool
    decreases a.len(),
{
    if b.len() == 0 {
        false
    } else if a.len() == 0 {
        true
    } else if a[0] != b[0] {
        (a[0] as int) < (b[0] as int)
    } else {
        seq_char_lt(a.drop_first(), b.drop_first())
    }
}


/// `seq_char_lt` is a strict total order: irreflexive, asymmetric, total on
/// distinct sequences, and transitive.
pub proof fn lemma_seq_char_lt_total(a: Seq<char>, b: Seq<char>)
    ensures
        !seq_char_lt(a, a),
        seq_char_lt(a, b) ==> !seq_char_lt(b, a),
        a != b ==> seq_char_lt(a, b) || seq_char_lt(b, a),
    decreases a.len(),
{
    if a.len() > 0 && b.len() > 0 {
        lemma_seq_char_lt_total(a.drop_first(), b.drop_first());
        lemma_seq_char_lt_total(a.drop_first(), a.drop_first());
        if a[0] == b[0] && a != b {
            assert(a.drop_first() != b.drop_first()) by {
                if a.drop_first() == b.drop_first() {
                    assert(a =~= seq![a[0]] + a.drop_first());
                    assert(b =~= seq![b[0]] + b.drop_first());
                }
            }
        }
        if a[0] != b[0] {
            assert((a[0] as int) != (b[0] as int));
        }
    } else if a.len() == 0 && b.len() == 0 {
        assert(a =~= b);
    } else if a.len() > 0 {
        lemma_seq_char_lt_total(a.drop_first(), a.drop_first());
    }
}

/// Transitivity of `seq_char_lt`.
pub proof fn lemma_seq_char_lt_trans(a: Seq<char>, b: Seq<char>, c: Seq<char>)
    requires
        seq_char_lt(a, b),
        seq_char_lt(b, c),
    ensures
        seq_char_lt(a, c),
    decreases a.len(),
{
    if a.len() > 0 && b.len() > 0 && c.len() > 0 && a[0] == b[0] && b[0] == c[0] {
        lemma_seq_char_lt_trans(a.drop_first(), b.drop_first(), c.drop_first());
    }
}

/// Law: a proper prefix comes before every longer sequence it begins.
pub proof fn law_seq_char_lt_prefix(a: Seq<char>, b: Seq<char>)
    requires
        a.len() < b.len(),
        a == b.subrange(0, a.len() as int),
    ensures
        seq_char_lt(a, b),
    decreases a.len(),
{
    if a.len() > 0 {
        assert(a[0] == b[0]);
        assert(a.drop_first() =~= b.drop_first().subrange(0, a.len() - 1));
        law_seq_char_lt_prefix(a.drop_first(), b.drop_first());
    }
}

/// Law: at the first position where two sequences differ, the one with the smaller
/// code point comes first.
pub proof fn law_seq_char_lt_first_difference(a: Seq<char>, b: Seq<char>, k: int)
    requires
        0 <= k < a.len(),
        k < b.len(),
        a.subrange(0, k) == b.subrange(0, k),
        (a[k] as int) < (b[k] as int),
    ensures
        seq_char_lt(a, b),
    decreases k,
{
    if k > 0 {
        assert(a[0] == a.subrange(0, k)[0] && b[0] == b.subrange(0, k)[0]);
        assert(a.drop_first().subrange(0, k - 1) =~= a.subrange(0, k).drop_first());
        assert(b.drop_first().subrange(0, k - 1) =~= b.subrange(0, k).drop_first());
        law_seq_char_lt_first_difference(a.drop_first(), b.drop_first(), k - 1);
    } else {
        assert(a[0] != b[0]);
    }
}

/// Whether `a` comes strictly before `b` in code-point order.
pub fn str_lt(a: &str, b: &str) -> (r: bool)
    ensures
        r == seq_char_lt(a@, b@),
{
    let la = a.unicode_len();
    let lb = b.unicode_len();
    let mut i: usize = 0;
    assert(a@.skip(0) =~= a@);
    assert(b@.skip(0) =~= b@);
    while i < la && i < lb
        invariant
            i <= la,
            i <= lb,
            la == a@.len(),
            lb == b@.len(),
            seq_char_lt(a@, b@) == seq_char_lt(a@.skip(i as int), b@.skip(i as int)),
        decreases la - i,
    {
        let ca = a.get_char(i);
        let cb = b.get_char(i);
        assert(a@.skip(i as int)[0] == ca);
        assert(b@.skip(i as int)[0] == cb);
        if ca != cb {
            return (ca as u32) < (cb as u32);
        }
        assert(a@.skip(i as int).drop_first() =~= a@.skip(i as int + 1));
        assert(b@.skip(i as int).drop_first() =~= b@.skip(i as int + 1));
        i += 1;
    }
    i < lb
}

} // verus!
