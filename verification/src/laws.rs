//! The crate-level laws, stated over the same spec functions the reader's
//! and writer's contracts use, so that a caller can compose them: writing a
//! primitive value and reading the text back yields the value.

use vstd::prelude::*;

use crate::digits::{
    lemma_dec_str_digits, lemma_digits_val_dec_str, spec_dec_str, spec_dec_str_signed,
    spec_digits_val,
};
use crate::de::spec_strip_unders;
use crate::item::Item;
use crate::ser::{spec_can, spec_can_fields, spec_esc_char, spec_ident_out};

verus! {

/// Unsigned round trip: the decimal text the writer emits for `v` denotes
/// `v` again, which is what the reader's contract returns on that text.
pub proof fn lemma_unsigned_round_trip(v: u64)
    ensures
        spec_can(Item::U64(v), false) == spec_dec_str(v as nat),
        spec_digits_val(spec_dec_str(v as nat)) == v,
{
    lemma_digits_val_dec_str(v as nat);
}

/// Signed round trip: the signed decimal text the writer emits for `v`
/// carries the sign and a magnitude that denotes `v` again.
pub proof fn lemma_signed_round_trip(v: i64)
    ensures
        spec_can(Item::I64(v), false) == spec_dec_str_signed(v as int),
        v >= 0 ==> spec_dec_str_signed(v as int) == spec_dec_str(v as nat) && spec_digits_val(
            spec_dec_str(v as nat),
        ) == v,
        v < 0 ==> spec_dec_str_signed(v as int) == seq!['-'] + spec_dec_str((-(v as int)) as nat)
            && spec_digits_val(spec_dec_str((-(v as int)) as nat)) == -(v as int),
{
    if v >= 0 {
        lemma_digits_val_dec_str(v as nat);
    } else {
        lemma_digits_val_dec_str((-(v as int)) as nat);
    }
}

/// The decimal text of an integer holds no separators, so separator
/// stripping leaves it unchanged: underscores never reach the magnitude.
pub proof fn lemma_digits_have_no_separators(v: u64)
    ensures
        spec_strip_unders(spec_dec_str(v as nat)) == spec_dec_str(v as nat),
{
    lemma_dec_str_digits(v as nat);
    crate::de::lemma_strip_unders_id(spec_dec_str(v as nat));
}

/// Booleans, chars and units write exactly the text the reader's contract
/// accepts back into the same value.
pub proof fn lemma_scalar_canonical_text(b: bool, c: char)
    ensures
        spec_can(Item::Bool(true), false) == seq!['t', 'r', 'u', 'e'],
        spec_can(Item::Bool(false), false) == seq!['f', 'a', 'l', 's', 'e'],
        spec_can(Item::Char(c), false) == seq!['\''] + spec_esc_char(c) + seq!['\''],
        spec_can(Item::Unit, false) == seq!['(', ')'],
        spec_can(Item::Option(None), false) == seq!['N', 'o', 'n', 'e'],
{
}

/// A newtype variant with a boolean payload is wrapped in exactly one pair
/// of parentheses: the payload adds no delimiters of its own.
pub proof fn lemma_newtype_variant_bool_single_wrap(name: String, payload: bool)
    ensures
        spec_can(Item::NewtypeVariant(name, Box::new(Item::Bool(payload))), false)
            == spec_ident_out(name@) + seq!['('] + spec_can(Item::Bool(payload), false) + seq![
            ')',
        ],
{
    let it = Item::NewtypeVariant(name, Box::new(Item::Bool(payload)));
    assert(spec_can(it, false) == spec_ident_out(name@) + seq!['('] + spec_can(
        Item::Bool(payload),
        true,
    ) + seq![')']);
    assert(spec_can(Item::Bool(payload), true) == spec_can(Item::Bool(payload), false));
}

/// A newtype variant with a struct payload emits exactly one pair of
/// parentheses, reused from the variant: the struct's own braces are
/// suppressed and only its field list appears between the parentheses.
pub proof fn lemma_newtype_variant_struct_single_wrap(
    name: String,
    sname: String,
    fs: Vec<(String, Item)>,
)
    ensures
        spec_can(Item::NewtypeVariant(name, Box::new(Item::Struct(sname, fs))), false)
            == spec_ident_out(name@) + seq!['('] + spec_can_fields(fs@) + seq![')'],
{
    let it = Item::NewtypeVariant(name, Box::new(Item::Struct(sname, fs)));
    assert(spec_can(it, false) == spec_ident_out(name@) + seq!['('] + spec_can(
        Item::Struct(sname, fs),
        true,
    ) + seq![')']);
    assert(spec_can(Item::Struct(sname, fs), true) == spec_can_fields(fs@));
}

} // verus!
