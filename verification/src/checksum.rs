//! The outcome of verifying an index file's own trailing checksum.

use vstd::prelude::*;

use crate::hash::ObjectId;

verus! {

/// Why checksum verification of an index file failed.
#[derive(Debug, PartialEq)]
pub enum Error {
    /// The interrupt flag was set; the computation stopped cleanly.
    Interrupted,
    /// The freshly computed digest differs from the stored one.
    Mismatch {
        /// The digest stored at the end of the index file.
        expected: ObjectId,
        /// The digest computed over the file's preceding bytes.
        actual: ObjectId,
    },
}

} // verus!
