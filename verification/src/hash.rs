//! Object identifiers and the digest kind used to form them.

use vstd::prelude::*;

use crate::bytes::eq_bytes;
use crate::bytes::copy_bytes;

verus! {

/// Width in bytes of the digests this crate works with (a 160-bit hash).
pub const DIGEST_LEN: usize = 20;

/// Denotes the kind of hash used to identify objects.
#[derive(PartialEq, Eq, Debug, Hash, Ord, PartialOrd, Clone, Copy, Structural)]
pub enum HashKind {
    /// The Sha1 hash with 160 bits.
    Sha1,
}

impl Default for HashKind {
    fn default() -> (r: Self)
        ensures
            r == HashKind::Sha1,
    {
        HashKind::Sha1
    }
}

impl HashKind {
    /// The width in bytes of a digest of this kind.
    pub fn len_in_bytes(&self) -> (r: usize)
        ensures
            r == DIGEST_LEN,
    {
        DIGEST_LEN
    }
}

/// A fixed-width cryptographic digest identifying an object's content.
#[derive(Debug, Clone, Hash)]
pub struct ObjectId {
    bytes: Vec<u8>,
}

impl View for ObjectId {
    type V = Seq<u8>;

    closed spec fn view(&self) -> Seq<u8> {
        self.bytes@
    }
}

impl ObjectId {
    /// An identifier is well formed when it spans exactly one digest width.
    pub open spec fn wf(self) -> bool {
        self@.len() == DIGEST_LEN
    }

    /// Builds an identifier from a digest-width run of bytes.
    pub fn from_bytes(b: &[u8]) -> (r: ObjectId)
        requires
            b@.len() == DIGEST_LEN,
        ensures
            r@ == b@,
            r.wf(),
    {
        ObjectId { bytes: copy_bytes(b) }
    }

    /// The identifier's bytes.
    pub fn as_slice(&self) -> (r: &[u8])
        ensures
            r@ == self@,
    {
        self.bytes.as_slice()
    }

    /// An owned copy of this identifier.
    pub fn duplicate(&self) -> (r: ObjectId)
        ensures
            r@ == self@,
    {
        ObjectId { bytes: copy_bytes(self.bytes.as_slice()) }
    }
}

/// The 160-bit digest that the Sha1 hash assigns to a run of bytes.
/// Its value depends on the bytes alone; it is not given by a formula here.
pub uninterp spec fn sha1_of(bytes: Seq<u8>) -> Seq<u8>;

/// Relies on `git_features::hash::Sha1` (`update` then `digest`): the digest
/// of the given bytes, 20 bytes wide, a function of the input alone.
#[verifier::external_body]
pub(crate) fn sha1_digest(bytes: &[u8]) -> (r: Vec<u8>)
    ensures
        r@ == sha1_of(bytes@),
        r@.len() == DIGEST_LEN,
{
    let mut h = git_features::hash::Sha1::default();
    h.update(bytes);
    h.digest().to_vec()
}

/// The CRC32 value of a run of bytes; a function of the bytes alone.
pub uninterp spec fn crc32_of(bytes: Seq<u8>) -> u32;

/// Relies on `git_features::hash::crc32`: the CRC32 value of the given bytes,
/// a function of the input alone.
#[verifier::external_body]
pub(crate) fn crc32(bytes: &[u8]) -> (r: u32)
    ensures
        r == crc32_of(bytes@),
{
    git_features::hash::crc32(bytes)
}

impl PartialEq for ObjectId {
    fn eq(&self, other: &ObjectId) -> (r: bool) {
        eq_bytes(self.bytes.as_slice(), other.bytes.as_slice())
    }
}

impl Eq for ObjectId {}

impl vstd::std_specs::cmp::PartialEqSpecImpl for ObjectId {
    open spec fn obeys_eq_spec() -> bool {
        true
    }

    open spec fn eq_spec(&self, other: &ObjectId) -> bool {
        self@ == other@
    }
}

} // verus!
