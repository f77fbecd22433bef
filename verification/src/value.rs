//! The runtime payload moved between caller and codec: an unsigned 64-bit
//! integer or an owned byte sequence.

use vstd::prelude::*;

verus! {

/// A field value: either an integer for the variable-length integer wire
/// format, or a byte sequence.
#[derive(Debug)]
pub enum Val {
    VarInt(u64),
    Bytes(Vec<u8>),
}

/// The mathematical value of a [`Val`]: the integer itself, or the byte
/// sequence it holds.
pub enum ValView {
    VarInt(u64),
    Bytes(Seq<u8>),
}

impl View for Val {
    type V = ValView;

    open spec fn view(&self) -> ValView {
        match self {
            Val::VarInt(x) => ValView::VarInt(*x),
            Val::Bytes(b) => ValView::Bytes(b@),
        }
    }
}

/// A value accessor was called against the other variant.
#[derive(Debug, PartialEq)]
pub enum Error {
    InvalidType,
}

impl Val {
    /// The stored integer, or [`Error::InvalidType`] if the value holds
    /// bytes.
    pub fn varint(&self) -> (r: Result<u64, Error>)
        ensures
            match r {
                Ok(v) => self@ == ValView::VarInt(v),
                Err(e) => e == Error::InvalidType && self@ is Bytes,
            },
    {
        match self {
            Val::VarInt(x) => Ok(*x),
            _ => Err(Error::InvalidType),
        }
    }

    /// The stored bytes, or [`Error::InvalidType`] if the value holds an
    /// integer.
    pub fn bytes(&self) -> (r: Result<&Vec<u8>, Error>)
        ensures
            match r {
                Ok(b) => self@ == ValView::Bytes(b@),
                Err(e) => e == Error::InvalidType && self@ is VarInt,
            },
    {
        match self {
            Val::Bytes(x) => Ok(x),
            _ => Err(Error::InvalidType),
        }
    }
}

/// A decoded value, together with the byte offset within the source buffer
/// at which the field's encoding began.
#[derive(Debug)]
pub struct ValInfo {
    pub value: Val,
    pub pos: usize,
}

/// The mathematical value of a [`ValInfo`].
pub struct ValInfoV {
    pub value: ValView,
    pub pos: int,
}

impl View for ValInfo {
    type V = ValInfoV;

    open spec fn view(&self) -> ValInfoV {
        ValInfoV { value: self.value@, pos: self.pos as int }
    }
}

} // verus!
