//! Error kinds shared by the codec, formats, and crypto layers.

use vstd::prelude::*;

verus! {

/// Failure of a lower layer: structural CBOR faults, wire-format faults,
/// cryptographic faults, and entropy faults. Every message is opaque text.
#[derive(Debug)]
pub enum CoreError {
    Cbor(String),
    Format(String),
    Crypto(String),
    Entropy(String),
}

pub type CoreResult<T> = Result<T, CoreError>;

impl CoreError {
    /// Which kind of fault this is, for callers that map errors.
    pub fn is_cbor(&self) -> (r: bool)
        ensures
            r == (self is Cbor),
    {
        match self {
            CoreError::Cbor(_) => true,
            _ => false,
        }
    }
}

} // verus!
