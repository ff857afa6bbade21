//! Error types reported by the ledger algebra and the configuration decoder.

use vstd::prelude::*;

verus! {

/// A `combine` or `scale` result did not fit in a signed 64-bit amount.
#[derive(Clone, Copy, Debug, PartialEq, Eq, Structural)]
pub struct ArithmeticOverflow;

/// Configuration text could not be decoded into an entity record.
#[derive(Clone, Debug, PartialEq, Eq)]
pub enum DeserializationError {
    /// The text is not well-formed, or the top-level shape is wrong.
    Syntax,
    /// A required field is absent; holds the field name.
    MissingField(String),
    /// A field is present but holds the wrong kind of value; holds the field
    /// or entry name.
    InvalidField(String),
}

} // verus!
