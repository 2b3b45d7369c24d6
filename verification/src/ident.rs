//! Identifier grammar shared by the reader and the writer.
//!
//! A bare word starts with a letter or an underscore (or any character outside
//! the ASCII range) and continues with letters, digits and underscores. Words
//! that do not fit this grammar are spelled with the reserved `r#` prefix.

use vstd::prelude::*;

verus! {

/// Whether `c` may open a bare identifier.
pub open spec fn spec_is_ident_first_char(c: char) -> bool {
    ('a' <= c && c <= 'z') || ('A' <= c && c <= 'Z') || c == '_' || c as u32 >= 128
}

/// Whether `c` may continue a bare identifier.
pub open spec fn spec_is_ident_other_char(c: char) -> bool {
    spec_is_ident_first_char(c) || ('0' <= c && c <= '9')
}

/// Whether the whole word `s` is a bare identifier (nonempty, opens with an
/// identifier-first character, continues with identifier characters).
pub open spec fn spec_is_ident(s: Seq<char>) -> bool {
    &&& s.len() > 0
    &&& spec_is_ident_first_char(s[0])
    &&& forall|i: int| 0 < i < s.len() ==> spec_is_ident_other_char(#[trigger] s[i])
}

#[verifier::when_used_as_spec(spec_is_ident_first_char)]
pub fn is_ident_first_char(c: char) -> (r: bool)
    ensures
        r == spec_is_ident_first_char(c),
{
    ('a' <= c && c <= 'z') || ('A' <= c && c <= 'Z') || c == '_' || c as u32 >= 128
}

#[verifier::when_used_as_spec(spec_is_ident_other_char)]
pub fn is_ident_other_char(c: char) -> (r: bool)
    ensures
        r == spec_is_ident_other_char(c),
{
    is_ident_first_char(c) || ('0' <= c && c <= '9')
}

/// Whether `c` is an ASCII decimal digit.
pub open spec fn spec_is_digit(c: char) -> bool {
    '0' <= c && c <= '9'
}

#[verifier::when_used_as_spec(spec_is_digit)]
pub fn is_digit(c: char) -> (r: bool)
    ensures
        r == spec_is_digit(c),
{
    '0' <= c && c <= '9'
}

/// The numeric value of the ASCII digit `c`.
pub open spec fn spec_digit_val(c: char) -> nat
    recommends
        spec_is_digit(c),
{
    (c as u32 - '0' as u32) as nat
}

pub fn digit_val(c: char) -> (r: u32)
    requires
        spec_is_digit(c),
    ensures
        r == spec_digit_val(c),
        r < 10,
{
    c as u32 - '0' as u32
}

} // verus!
