//! Core codec for the D-Bus message body wire format.
//!
//! Reading: borrowed cursor views over `(signature, bytes, absolute position,
//! endianness)` that decode one typed value at a time, honouring the
//! alignment discipline of the wire format.
//! Writing: owned buffers that accumulate correctly aligned bytes and carry
//! the signature of what they hold.

pub mod error;
pub mod info;
pub mod laws;
pub mod reader;
pub mod sig;
pub mod strings;
pub mod wire;
pub mod writer;
