//! The trusted boundary of the crate: every call into code that the verifier
//! does not read lives here, behind a wrapper whose contract states what the
//! call's own source or documentation shows. Floating-point values never
//! appear in verified code; they travel as their IEEE 754 bit patterns.

use vstd::prelude::*;

use rustc_apfloat::Float;
use rustc_apfloat::FloatConvert;
use rustc_apfloat::ieee::Double;
use rustc_apfloat::ieee::Single;

verus! {

/// The bits of the `f64` that `str::parse::<f64>` returns for a given
/// character sequence; a function of the characters alone.
pub uninterp spec fn f64_bits_of_dec(s: Seq<char>) -> u64;

/// The bits of the `f32` that `str::parse::<f32>` returns for a given
/// character sequence; a function of the characters alone.
pub uninterp spec fn f32_bits_of_dec(s: Seq<char>) -> u32;

/// The bits of the `f32` nearest to the `f64` with the given bits.
pub uninterp spec fn f32_of_f64_bits(b: u64) -> u32;

/// The bits of the `f64` that exactly represents the `f32` with the given
/// bits.
pub uninterp spec fn f64_of_f32_bits(b: u32) -> u64;

/// The bits of the `f64` nearest to the unsigned integer `u`.
pub uninterp spec fn f64_bits_of_u64(u: u64) -> u64;

/// The shortest-round-trip decimal text of the `f64` with the given bits.
pub uninterp spec fn f64_dec_of(b: u64) -> Seq<char>;

/// The shortest-round-trip decimal text of the `f32` with the given bits.
pub uninterp spec fn f32_dec_of(b: u32) -> Seq<char>;

/// The debug-escaped spelling of `c`, as `char::escape_debug` yields it.
pub uninterp spec fn esc_debug_of(c: char) -> Seq<char>;

/// The standard base64 text for a byte sequence.
pub uninterp spec fn b64_of(b: Seq<u8>) -> Seq<char>;

/// The bytes that standard base64 decoding yields for a character sequence
/// it accepts.
pub uninterp spec fn b64_bytes_of(s: Seq<char>) -> Seq<u8>;

/// Whether every character of `s` is a decimal digit or a dot, with at most
/// one dot and at least one digit: a body that `f64`/`f32` parsing is
/// documented to accept.
pub open spec fn spec_float_body(s: Seq<char>) -> bool {
    &&& forall|i: int| 0 <= i < s.len() ==> (crate::ident::spec_is_digit(#[trigger] s[i]) || s[i]
        == '.')
    &&& s.filter(|c: char| c == '.').len() <= 1
    &&& exists|i: int| 0 <= i < s.len() && crate::ident::spec_is_digit(#[trigger] s[i])
}

/// Whether `s` is an optionally signed simple decimal literal.
pub open spec fn spec_simple_float_literal(s: Seq<char>) -> bool {
    if s.len() > 0 && (s[0] == '+' || s[0] == '-') {
        spec_float_body(s.skip(1))
    } else {
        spec_float_body(s)
    }
}

/// Relies on `rustc_apfloat::ieee::Double::from_str` (correctly rounded
/// IEEE 754 binary64 conversion) and `Float::to_bits`: the result depends on
/// the characters alone, and parsing succeeds on every simple decimal
/// literal, which lies inside the `dddd.dddd[eE][+-]ddd` grammar that
/// `from_decimal_string` accepts.
#[verifier::external_body]
pub fn parse_f64_bits(s: &str) -> (r: Option<u64>)
    ensures
        r matches Some(b) ==> b == f64_bits_of_dec(s@),
        spec_simple_float_literal(s@) ==> r is Some,
{
    s.parse::<Double>().ok().map(|d| d.to_bits() as u64)
}

/// Relies on `rustc_apfloat::ieee::Single::from_str` (correctly rounded
/// IEEE 754 binary32 conversion) and `Float::to_bits`: the result depends on
/// the characters alone, and parsing succeeds on every simple decimal
/// literal, which lies inside the `dddd.dddd[eE][+-]ddd` grammar that
/// `from_decimal_string` accepts.
#[verifier::external_body]
pub fn parse_f32_bits(s: &str) -> (r: Option<u32>)
    ensures
        r matches Some(b) ==> b == f32_bits_of_dec(s@),
        spec_simple_float_literal(s@) ==> r is Some,
{
    s.parse::<Single>().ok().map(|d| d.to_bits() as u32)
}

/// Relies on `rustc_apfloat::FloatConvert::convert` from binary64 to
/// binary32: rounding to the nearest narrower value is a function of the
/// operand's bits alone.
#[verifier::external_body]
pub fn f64_bits_to_f32_bits(b: u64) -> (r: u32)
    ensures
        r == f32_of_f64_bits(b),
{
    let d = Double::from_bits(b as u128);
    let mut loses_info = false;
    let s: Single = d.convert(&mut loses_info).value;
    s.to_bits() as u32
}

/// Relies on `rustc_apfloat::FloatConvert::convert` from binary32 to
/// binary64: widening is exact and a function of the operand's bits alone.
#[verifier::external_body]
pub fn f32_bits_to_f64_bits(b: u32) -> (r: u64)
    ensures
        r == f64_of_f32_bits(b),
{
    let s = Single::from_bits(b as u128);
    let mut loses_info = false;
    let d: Double = s.convert(&mut loses_info).value;
    d.to_bits() as u64
}

/// Relies on `rustc_apfloat::Float::from_u128` for binary64: rounding an
/// unsigned integer to the nearest representable value is a function of the
/// operand alone.
#[verifier::external_body]
pub fn u64_to_f64_bits(u: u64) -> (r: u64)
    ensures
        r == f64_bits_of_u64(u),
{
    Double::from_u128(u as u128).value.to_bits() as u64
}

/// Relies on `Display` for `rustc_apfloat::ieee::Double` (via `format!`):
/// decimal text with enough digits that parsing it back yields the same
/// value (its documentation cites Steele & White), a function of the bits
/// alone; it is never empty. The round trip is stated for every non-NaN
/// value; a NaN's payload is not preserved through text.
#[verifier::external_body]
pub fn fmt_f64_bits(b: u64) -> (r: String)
    ensures
        r@ == f64_dec_of(b),
        r@.len() >= 1,
        !crate::value::spec_f64_is_nan(b) ==> f64_bits_of_dec(r@) == b,
{
    format!("{}", Double::from_bits(b as u128))
}

/// Relies on `Display` for `rustc_apfloat::ieee::Single` (via `format!`):
/// decimal text with enough digits that parsing it back yields the same
/// value, a function of the bits alone; it is never empty.
#[verifier::external_body]
pub fn fmt_f32_bits(b: u32) -> (r: String)
    ensures
        r@ == f32_dec_of(b),
        r@.len() >= 1,
        !crate::value::spec_f32_is_nan(b) ==> f32_bits_of_dec(r@) == b,
{
    format!("{}", Single::from_bits(b as u128))
}

/// Relies on `char::escape_debug`: quotes, backslashes and non-printable
/// characters are escaped, and a printable ASCII character other than a
/// quote or a backslash stands for itself.
#[verifier::external_body]
pub fn escape_debug_char(c: char) -> (r: String)
    ensures
        r@ == esc_debug_of(c),
        r@.len() >= 1,
        (' ' <= c && c <= '~' && c != '"' && c != '\\' && c != '\'') ==> r@ == seq![c],
{
    c.escape_debug().collect()
}

/// Relies on `base64::encode` (standard alphabet, padded): the text is a
/// function of the bytes alone, is made only of ASCII letters, digits,
/// `+`, `/` and `=`, and decoding it yields the bytes back.
#[verifier::external_body]
pub fn b64_encode(v: &Vec<u8>) -> (r: String)
    ensures
        r@ == b64_of(v@),
        b64_bytes_of(r@) == v@,
        forall|i: int|
            0 <= i < r@.len() ==> {
                let c = #[trigger] r@[i];
                ('A' <= c && c <= 'Z') || ('a' <= c && c <= 'z') || ('0' <= c && c <= '9') || c
                    == '+' || c == '/' || c == '='
            },
{
    base64::encode(v)
}

/// Relies on `base64::decode` (standard alphabet): on text it accepts, the
/// bytes are a function of the characters alone; on other text it fails.
/// Text that `base64::encode` produced is always accepted.
#[verifier::external_body]
pub fn b64_decode(s: &str) -> (r: Option<Vec<u8>>)
    ensures
        r matches Some(b) ==> b@ == b64_bytes_of(s@),
        (exists|bs: Seq<u8>| s@ == b64_of(bs)) ==> r is Some,
{
    base64::decode(s).ok()
}

/// Relies on `char::from_u32`: yields the character with the given scalar
/// value, or nothing when the value is no Unicode scalar value (a
/// surrogate, or above the Unicode range).
#[verifier::external_body]
pub fn char_of_u32(u: u32) -> (r: Option<char>)
    ensures
        r matches Some(c) ==> c as u32 == u,
        (u < 0xd800 || (0xe000 <= u && u <= 0x10_ffff)) ==> r is Some,
{
    char::from_u32(u)
}

/// Relies on `String::push`: appends exactly the one character.
#[verifier::external_body]
pub fn push_char(s: &mut String, c: char)
    ensures
        final(s)@ == old(s)@ + seq![c],
{
    s.push(c)
}

} // verus!
