//! A schema-driven binary record codec.
//!
//! A [`Block`] is an ordered list of named fields; each field's [`Def`]
//! fixes its wire encoding: a variable-length integer (free or constant),
//! a byte sequence (fixed-length or length-prefixed), or a constant byte
//! sequence that doubles as a self-validating marker. [`Block::to_bytes`]
//! encodes a mapping of field names to values into a caller-supplied
//! buffer, and [`Block::to_values`] decodes a buffer back into such a
//! mapping, reporting a distinct error for a missing value, a value that
//! conflicts with the schema, and an exhausted buffer.
//!
//! The byte-cursor primitives (bounded reads and writes of raw bytes and
//! of the variable-length integer representation) are delegated to the
//! `octets` crate; everything built on top of them is specified and
//! verified here.

mod block;
mod field;
mod value;
mod value_map;
mod wire;

use vstd::prelude::*;

pub use block::Block;
pub use block::has_name;
pub use block::infos_view;
pub use block::lemma_block_encode_deterministic;
pub use block::lemma_block_round_trip;
pub use block::map_val;
pub use block::spec_block_to_bytes;
pub use block::spec_block_to_values;
pub use block::spec_block_written;
pub use field::Def;
pub use field::Field;
pub use field::Len;
pub use field::U64;
pub use field::def_accepts;
pub use field::def_bytes;
pub use field::def_is_free;
pub use field::def_wants_value;
pub use field::decoded_val;
pub use field::deref_val;
pub use field::lemma_field_round_trip;
pub use field::spec_field_to_bytes;
pub use field::spec_field_to_value;
pub use value::Error;
pub use value::Val;
pub use value::ValInfo;
pub use value::ValInfoV;
pub use value::ValView;
pub use value_map::ValueMap;
pub use wire::MAX_VARINT;
pub use wire::lemma_varint_minimal_class;
pub use wire::lemma_varint_round_trip;
pub use wire::varint_bytes;
pub use wire::varint_class_bound;
pub use wire::varint_fits;
pub use wire::varint_len_of;
pub use wire::varint_parse_len;
pub use wire::varint_value_at;

verus! {

/// A schema key. Field names are compared, cloned and stored by the codec;
/// implementors promise that the executable operations agree with
/// mathematical equality on the type.
pub trait FieldName: Sized {
    /// Decides whether two names are equal.
    fn eq_name(&self, other: &Self) -> (r: bool)
        ensures
            r == (self == other),
    ;

    /// Produces a copy of the name.
    fn clone_name(&self) -> (r: Self)
        ensures
            r == *self,
    ;
}

/// Plain integers serve as ready-made schema keys.
impl FieldName for u64 {
    fn eq_name(&self, other: &Self) -> (r: bool) {
        *self == *other
    }

    fn clone_name(&self) -> (r: Self) {
        *self
    }
}

/// An encoding failure, carrying the name of the field on which the
/// traversal stopped.
#[derive(Debug, PartialEq)]
pub enum ToBytesError<F> where F: FieldName {
    /// The field needs a caller-supplied value and none was given.
    NoValueProvided(F),
    /// The supplied value conflicts with the field's definition, or an
    /// integer is too large for the variable-length wire format.
    InvalidValue(F),
    /// The destination buffer cannot hold the field's encoding.
    NotEnoughSpace(F),
}

/// A decoding failure, carrying the name of the field on which the
/// traversal stopped.
#[derive(Debug, PartialEq)]
pub enum ToValuesError<F> where F: FieldName {
    /// The decoded bytes differ from the constant the schema declares.
    InvalidValue(F),
    /// The source buffer ended before the field's encoding did.
    NotEnoughData(F),
}

} // verus!
