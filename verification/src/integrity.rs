//! Errors of per-entry object verification.

use vstd::prelude::*;

use crate::hash::ObjectId;
use crate::object::DecodeError;
use crate::object::Kind;

verus! {

/// Why one pack entry failed verification.
#[derive(Debug)]
pub enum Error {
    /// The object's bytes do not decode as its declared kind.
    ObjectDecode {
        /// The underlying decode failure.
        source: DecodeError,
        /// The object's declared kind.
        kind: Kind,
        /// The object's identifier, as the index lists it.
        id: ObjectId,
    },
    /// Re-encoding the decoded object did not reproduce its bytes, and no
    /// tolerance rule applied.
    ObjectEncodeMismatch {
        /// The object's declared kind.
        kind: Kind,
        /// The object's identifier, as the index lists it.
        id: ObjectId,
        /// The bytes as stored.
        expected: Vec<u8>,
        /// The bytes the re-encoding produced.
        actual: Vec<u8>,
    },
}

} // verus!
