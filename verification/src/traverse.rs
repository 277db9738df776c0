//! Types driving and summarizing a full traversal of a pack via its index.

use vstd::prelude::*;

use crate::checksum;
use crate::hash::ObjectId;
use crate::integrity;

verus! {

/// The strategy for visiting every entry of a pack. The order in which
/// entries are visited is implementation-defined; every algorithm visits all
/// of them.
#[derive(Debug, PartialEq, Eq, Hash, Clone, Copy, Structural)]
pub enum Algorithm {
    /// Visit entries by index lookup, entry order.
    Lookup,
    /// Visit entries along the delta-dependency tree.
    DeltaTreeLookup,
}

/// Which safety checks a traversal enforces.
#[derive(Debug, PartialEq, Eq, Hash, Clone, Copy, Structural)]
pub enum SafetyCheck {
    /// Enforce everything: file checksums, offsets, CRC32s, object digests.
    All,
}

/// The summary of a successful traversal: per-kind counts and the total
/// verified (decompressed) size, saturating at the largest value.
#[derive(Debug, PartialEq, Eq, Hash, Clone, Copy, Structural)]
pub struct Outcome {
    /// How many tree objects were verified.
    pub num_trees: u64,
    /// How many commit objects were verified.
    pub num_commits: u64,
    /// How many tag objects were verified.
    pub num_tags: u64,
    /// How many blob objects were verified.
    pub num_blobs: u64,
    /// The saturating sum of the verified objects' decompressed sizes.
    pub total_object_size: u64,
}

/// Why a traversal failed; the whole pack is certified or one concrete error
/// identifies exactly which object and check failed.
#[derive(Debug)]
pub enum Error {
    /// The per-entry verifier rejected an object.
    Processor(integrity::Error),
    /// The index file's own checksum verification failed.
    Checksum(checksum::Error),
    /// The pack data file's digest is not the one the index names.
    PackMismatch {
        /// The pack digest the index names.
        expected: ObjectId,
        /// The digest the pack data file carries.
        actual: ObjectId,
    },
    /// An index entry's offset points at no object of the pack.
    OffsetOutOfRange {
        /// The offending offset.
        pack_offset: u64,
    },
    /// An entry's stored bytes hash to a different CRC32 than the index says.
    Crc32Mismatch {
        /// The CRC32 the index carries.
        expected: u32,
        /// The CRC32 of the entry's stored bytes.
        actual: u32,
    },
    /// An object's digest is not the identifier the index lists for it.
    ObjectIdMismatch {
        /// The identifier the index lists.
        expected: ObjectId,
        /// The digest of the object's bytes.
        actual: ObjectId,
    },
    /// The interrupt flag was set; the traversal stopped cleanly.
    Interrupted,
}

} // verus!
