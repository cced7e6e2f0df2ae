//! The closed set of failure reasons reported by readers and builders.

use vstd::prelude::*;

verus! {

/// Why demarshalling (or an append into a builder) failed.
#[derive(Clone, Copy, Debug, PartialEq, Eq, Structural)]
pub enum DemarshalError {
    /// The byte buffer ended before the value it should hold.
    NotEnoughData,
    /// A string payload was not valid for its string type.
    InvalidString,
    /// A four byte boolean held something other than 0 or 1.
    InvalidBoolean,
    /// A length field exceeded its cap (64 MiB arrays, 255 byte signatures).
    NumberTooBig,
    /// A value's signature did not match what the container expects.
    WrongType,
}

} // verus!
