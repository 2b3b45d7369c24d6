//! A human-oriented text data-interchange format: booleans, chars, numbers,
//! strings, byte blobs, options, sequences, tuples, maps, structs and enum
//! variants written as lenient, comment-friendly text and read back.
//!
//! Reading is driven by a [`item::Shape`] description of what is expected
//! and yields a typed [`item::Item`] tree ([`de::from_str`]), or infers the
//! shape from the text alone and yields a dynamic [`value::Value`] tree
//! ([`de::decode_value`]), which can later be re-bound into a typed shape.
//! Writing walks a typed tree in canonical mode ([`ser::to_string`]) or in
//! pretty mode governed by a [`ser::PrettyConfig`]. The laws the two
//! directions obey together are stated and proved in [`laws`].

pub mod de;
pub mod digits;
pub mod error;
pub mod ident;
pub mod item;
pub mod laws;
pub mod outside;
pub mod ser;
pub mod strutil;
pub mod value;
