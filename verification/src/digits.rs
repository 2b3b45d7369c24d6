//! Decimal digits: the spec-level shape of a number written in base 10, the
//! value a run of digits denotes, the verified formatter that produces the
//! digits of a machine integer, and the lemma that the two are inverse.

use vstd::prelude::*;

use crate::ident::{spec_digit_val, spec_is_digit};

verus! {

/// The ASCII digit character for `d` (`d < 10`).
pub open spec fn spec_digit_char(d: nat) -> char {
    if d == 0 {
        '0'
    } else if d == 1 {
        '1'
    } else if d == 2 {
        '2'
    } else if d == 3 {
        '3'
    } else if d == 4 {
        '4'
    } else if d == 5 {
        '5'
    } else if d == 6 {
        '6'
    } else if d == 7 {
        '7'
    } else if d == 8 {
        '8'
    } else {
        '9'
    }
}

/// The decimal spelling of `v`, most significant digit first, no sign, no
/// leading zeros (`0` itself is spelled `"0"`).
pub open spec fn spec_dec_str(v: nat) -> Seq<char>
    decreases v,
{
    if v < 10 {
        seq![spec_digit_char(v)]
    } else {
        spec_dec_str(v / 10) + seq![spec_digit_char(v % 10)]
    }
}

/// The decimal spelling of a signed value: a leading `-` for negatives,
/// then the digits of the magnitude.
pub open spec fn spec_dec_str_signed(v: int) -> Seq<char> {
    if v < 0 {
        seq!['-'] + spec_dec_str((-v) as nat)
    } else {
        spec_dec_str(v as nat)
    }
}

/// The value denoted by a run of ASCII digits (most significant first).
pub open spec fn spec_digits_val(s: Seq<char>) -> nat
    decreases s.len(),
{
    if s.len() == 0 {
        0
    } else {
        spec_digits_val(s.drop_last()) * 10 + spec_digit_val(s.last())
    }
}

/// Whether every character of `s` is an ASCII digit.
pub open spec fn spec_all_digits(s: Seq<char>) -> bool {
    forall|i: int| 0 <= i < s.len() ==> spec_is_digit(#[trigger] s[i])
}

pub proof fn lemma_digit_char_val(d: nat)
    requires
        d < 10,
    ensures
        spec_is_digit(spec_digit_char(d)),
        spec_digit_val(spec_digit_char(d)) == d,
{
}

/// The decimal spelling of `v` is made of digits only.
pub proof fn lemma_dec_str_digits(v: nat)
    ensures
        spec_dec_str(v).len() >= 1,
        spec_all_digits(spec_dec_str(v)),
    decreases v,
{
    if v < 10 {
        lemma_digit_char_val(v);
    } else {
        lemma_dec_str_digits(v / 10);
        lemma_digit_char_val(v % 10);
        assert forall|i: int| 0 <= i < spec_dec_str(v).len() implies spec_is_digit(
            #[trigger] spec_dec_str(v)[i],
        ) by {
            if i < spec_dec_str(v / 10).len() {
                assert(spec_dec_str(v)[i] == spec_dec_str(v / 10)[i]);
            }
        }
    }
}

/// Reading the decimal spelling of `v` back as digits yields `v`: the core of
/// the integer round trip.
pub proof fn lemma_digits_val_dec_str(v: nat)
    ensures
        spec_digits_val(spec_dec_str(v)) == v,
    decreases v,
{
    if v < 10 {
        let s = spec_dec_str(v);
        assert(s.drop_last() =~= Seq::<char>::empty());
        assert(s.last() == spec_digit_char(v));
        lemma_digit_char_val(v);
        assert(spec_digits_val(s) == spec_digits_val(s.drop_last()) * 10 + spec_digit_val(s.last()));
        assert(spec_digits_val(s.drop_last()) == 0);
    } else {
        lemma_digits_val_dec_str(v / 10);
        lemma_digit_char_val(v % 10);
        let s = spec_dec_str(v);
        assert(s.drop_last() =~= spec_dec_str(v / 10));
        assert(s.last() == spec_digit_char(v % 10));
        assert(spec_digits_val(s) == spec_digits_val(spec_dec_str(v / 10)) * 10 + (v % 10));
        assert((v / 10) * 10 + v % 10 == v) by {
            vstd::arithmetic::div_mod::lemma_fundamental_div_mod(v as int, 10);
        }
    }
}

/// Extending a digit run by one digit multiplies its value by ten and adds
/// the digit.
pub proof fn lemma_digits_val_push(s: Seq<char>, c: char)
    ensures
        spec_digits_val(s + seq![c]) == spec_digits_val(s) * 10 + spec_digit_val(c),
{
    let t = s + seq![c];
    assert(t.drop_last() =~= s);
    assert(t.last() == c);
}

/// The value of a prefix of a digit run never exceeds the value of the whole
/// run.
pub proof fn lemma_digits_val_prefix_le(s: Seq<char>, i: int)
    requires
        0 <= i <= s.len(),
    ensures
        spec_digits_val(s.take(i)) <= spec_digits_val(s),
    decreases s.len() - i,
{
    if i < s.len() {
        lemma_digits_val_prefix_le(s, i + 1);
        let a = s.take(i);
        let b = s.take(i + 1);
        assert(b.drop_last() =~= a);
        assert(spec_digits_val(b) == spec_digits_val(a) * 10 + spec_digit_val(b.last()));
        assert(spec_digits_val(a) <= spec_digits_val(a) * 10) by (nonlinear_arith);
    } else {
        assert(s.take(i) =~= s);
    }
}

pub fn digit_char(d: u64) -> (c: char)
    requires
        d < 10,
    ensures
        c == spec_digit_char(d as nat),
{
    match d {
        0 => '0',
        1 => '1',
        2 => '2',
        3 => '3',
        4 => '4',
        5 => '5',
        6 => '6',
        7 => '7',
        8 => '8',
        _ => '9',
    }
}

/// Appends the decimal digits of `v` to `out`.
pub fn fmt_u64_into(v: u64, out: &mut Vec<char>)
    ensures
        final(out)@ == old(out)@ + spec_dec_str(v as nat),
    decreases v,
{
    if v < 10 {
        out.push(digit_char(v));
    } else {
        fmt_u64_into(v / 10, out);
        out.push(digit_char(v % 10));
        assert(final(out)@ =~= old(out)@ + spec_dec_str(v as nat));
    }
}

/// Appends the decimal spelling of the signed `v` (sign, then magnitude) to
/// `out`.
pub fn fmt_i64_into(v: i64, out: &mut Vec<char>)
    ensures
        final(out)@ == old(out)@ + spec_dec_str_signed(v as int),
{
    if v >= 0 {
        fmt_u64_into(v as u64, out);
    } else {
        out.push('-');
        let mag: u64 = if v == i64::MIN {
            9223372036854775808u64
        } else {
            (-v) as u64
        };
        assert(mag == -(v as int));
        fmt_u64_into(mag, out);
        assert(final(out)@ =~= old(out)@ + spec_dec_str_signed(v as int));
    }
}

} // verus!
