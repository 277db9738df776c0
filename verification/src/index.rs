//! Pack index files: the mapping from object identifiers to pack offsets and
//! CRC32 values, terminated by two trailing digests — one over the pack data
//! file, one over the index file's own preceding bytes.

use vstd::prelude::*;

use crate::bytes::eq_bytes;
use crate::bytes::copy_bytes;
use crate::bytes::prefix_bytes;
use crate::checksum;
use crate::hash::sha1_of;
use crate::hash::sha1_digest;
use crate::hash::HashKind;
use crate::hash::ObjectId;
use crate::hash::DIGEST_LEN;
use crate::progress::Interrupt;
use crate::progress::Progress;

verus! {

/// One index entry: an object's identifier, where its bytes sit in the pack,
/// and the CRC32 of its stored form, when the index carries one.
pub struct Entry {
    /// The object's identifier.
    pub oid: ObjectId,
    /// The offset of the object's entry in the pack data file.
    pub pack_offset: u64,
    /// The CRC32 of the entry's stored bytes, if the index format carries it.
    pub crc32: Option<u32>,
}

/// The mathematical content of one entry.
pub open spec fn entry_view(e: Entry) -> (Seq<u8>, u64, Option<u32>) {
    (e.oid@, e.pack_offset, e.crc32)
}

/// The mathematical content of an entry sequence.
pub open spec fn entries_view(es: Seq<Entry>) -> Seq<(Seq<u8>, u64, Option<u32>)> {
    es.map(|i: int, e: Entry| entry_view(e))
}

impl Entry {
    /// An owned copy of this entry.
    pub fn duplicate(&self) -> (r: Entry)
        ensures
            entry_view(r) == entry_view(*self),
    {
        Entry { oid: self.oid.duplicate(), pack_offset: self.pack_offset, crc32: self.crc32 }
    }
}

/// One pack index file: its raw bytes and the entries decoded from them.
pub struct File {
    /// The index file's raw bytes, trailing digests included.
    pub data: Vec<u8>,
    /// The kind of hash the file's digests use.
    pub object_hash: HashKind,
    /// The entries the file describes, in stored (identifier) order.
    pub entries: Vec<Entry>,
}

/// The conditions under which raw parts form a well-formed index file.
pub open spec fn parts_wf(data: Seq<u8>, entries: Seq<Entry>) -> bool {
    &&& data.len() >= 2 * DIGEST_LEN
    &&& entries.len() <= u32::MAX
    &&& forall|i: int| 0 <= i < entries.len() ==> (#[trigger] entries[i]).oid.wf()
}

impl File {
    /// A well-formed index file.
    pub open spec fn wf(self) -> bool {
        parts_wf(self.data@, self.entries@)
    }

    /// The bytes of the trailing digest over the index file itself.
    pub open spec fn index_checksum_bytes(self) -> Seq<u8> {
        self.data@.subrange(self.data@.len() - DIGEST_LEN, self.data@.len() as int)
    }

    /// The bytes of the digest of the corresponding pack data file, sitting
    /// immediately before the index checksum.
    pub open spec fn pack_checksum_bytes(self) -> Seq<u8> {
        self.data@.subrange(
            self.data@.len() - 2 * DIGEST_LEN,
            self.data@.len() - DIGEST_LEN,
        )
    }

    /// All bytes the trailing index checksum covers: everything before it.
    pub open spec fn hashed_bytes(self) -> Seq<u8> {
        self.data@.subrange(0, self.data@.len() - DIGEST_LEN)
    }

    /// Builds an index file from raw parts, validating well-formedness.
    pub fn from_parts(data: Vec<u8>, object_hash: HashKind, entries: Vec<Entry>) -> (r: Option<
        File,
    >)
        ensures
            match r {
                Some(f) => parts_wf(data@, entries@) && f.wf() && f.data@ == data@
                    && f.object_hash == object_hash && entries_view(f.entries@) == entries_view(
                    entries@,
                ),
                None => !parts_wf(data@, entries@),
            },
    {
        if data.len() < 2 * DIGEST_LEN {
            return None;
        }
        if entries.len() > u32::MAX as usize {
            return None;
        }
        let n = entries.len();
        let mut j: usize = 0;
        while j < n
            invariant
                n == entries@.len(),
                0 <= j <= n,
                forall|i: int| 0 <= i < j ==> (#[trigger] entries@[i]).oid.wf(),
            decreases n - j,
        {
            if entries[j].oid.as_slice().len() != DIGEST_LEN {
                return None;
            }
            j = j + 1;
        }
        Some(File { data, object_hash, entries })
    }

    /// An owned copy of this index file.
    pub fn duplicate(&self) -> (r: File)
        ensures
            r.data@ == self.data@,
            r.object_hash == self.object_hash,
            entries_view(r.entries@) == entries_view(self.entries@),
            self.wf() ==> r.wf(),
    {
        let n = self.entries.len();
        let mut entries: Vec<Entry> = Vec::new();
        let mut j: usize = 0;
        while j < n
            invariant
                n == self.entries@.len(),
                0 <= j <= n,
                entries@.len() == j,
                forall|k: int|
                    0 <= k < j ==> entry_view(#[trigger] entries@[k]) == entry_view(
                        self.entries@[k],
                    ),
            decreases n - j,
        {
            entries.push(self.entries[j].duplicate());
            j = j + 1;
        }
        let r = File { data: copy_bytes(self.data.as_slice()), object_hash: self.object_hash, entries };
        proof {
            assert(entries_view(r.entries@) =~= entries_view(self.entries@));
            assert(forall|i: int|
                0 <= i < r.entries@.len() ==> (#[trigger] entries_view(r.entries@)[i]) == entry_view(
                    r.entries@[i],
                ));
        }
        r
    }

    /// How many objects this index describes.
    pub fn num_objects(&self) -> (r: u32)
        requires
            self.wf(),
        ensures
            r == self.entries@.len(),
    {
        self.entries.len() as u32
    }

    /// The identifier of the object at the given position.
    pub fn oid_at_index(&self, index: u32) -> (r: ObjectId)
        requires
            self.wf(),
            index < self.entries@.len(),
        ensures
            r@ == self.entries@[index as int].oid@,
    {
        self.entries[index as usize].oid.duplicate()
    }

    /// The trailing digest stored at the end of this index file: a digest
    /// over all bytes of the index that precede it.
    pub fn index_checksum(&self) -> (r: ObjectId)
        requires
            self.wf(),
        ensures
            r@ == self.index_checksum_bytes(),
            r.wf(),
    {
        let len = self.data.len();
        let w = self.object_hash.len_in_bytes();
        ObjectId::from_bytes(&self.data.as_slice()[len - w..len])
    }

    /// The digest of the pack data file this index describes, stored
    /// immediately before the index checksum.
    pub fn pack_checksum(&self) -> (r: ObjectId)
        requires
            self.wf(),
        ensures
            r@ == self.pack_checksum_bytes(),
            r.wf(),
    {
        let len = self.data.len();
        let w = self.object_hash.len_in_bytes();
        ObjectId::from_bytes(&self.data.as_slice()[len - 2 * w..len - w])
    }

    /// Recomputes the digest over this index file's bytes and compares it to
    /// the stored trailing digest, returning the checksum on a match. Fails
    /// with `Interrupted` when the flag is set, with `Mismatch` when the
    /// recomputed digest differs.
    pub fn verify_checksum(&self, progress: &mut Progress, should_interrupt: &Interrupt) -> (r:
        Result<ObjectId, checksum::Error>)
        requires
            self.wf(),
        ensures
            final(progress).messages@ == old(progress).messages@,
            should_interrupt.is_set ==> r == Err::<ObjectId, checksum::Error>(
                checksum::Error::Interrupted,
            ),
            !should_interrupt.is_set ==> match r {
                Ok(id) => id@ == self.index_checksum_bytes() && sha1_of(self.hashed_bytes())
                    == self.index_checksum_bytes(),
                Err(e) => match e {
                    checksum::Error::Interrupted => false,
                    checksum::Error::Mismatch { expected, actual } => sha1_of(self.hashed_bytes())
                        != self.index_checksum_bytes() && expected@ == self.index_checksum_bytes()
                        && actual@ == sha1_of(self.hashed_bytes()),
                },
            },
    {
        if should_interrupt.is_set {
            return Err(checksum::Error::Interrupted);
        }
        let len = self.data.len();
        let w = self.object_hash.len_in_bytes();
        let covered = prefix_bytes(self.data.as_slice(), len - w);
        let actual = sha1_digest(covered.as_slice());
        let expected = self.index_checksum();
        if eq_bytes(actual.as_slice(), expected.as_slice()) {
            Ok(expected)
        } else {
            Err(checksum::Error::Mismatch { expected, actual: ObjectId::from_bytes(actual.as_slice()) })
        }
    }
}

/// The two trailing digests are adjacent, non-overlapping slices that
/// together make up exactly the last two digest widths of the file: the pack
/// checksum spans `[len - 2w, len - w)`, the index checksum `[len - w, len)`.
pub proof fn lemma_trailing_checksums(f: File)
    requires
        f.wf(),
    ensures
        f.pack_checksum_bytes().len() == DIGEST_LEN,
        f.index_checksum_bytes().len() == DIGEST_LEN,
        f.pack_checksum_bytes() + f.index_checksum_bytes() == f.data@.subrange(
            f.data@.len() - 2 * DIGEST_LEN,
            f.data@.len() as int,
        ),
        f.pack_checksum_bytes() == f.data@.subrange(
            f.data@.len() - 2 * DIGEST_LEN,
            f.data@.len() - DIGEST_LEN,
        ),
        f.index_checksum_bytes() == f.data@.subrange(
            f.data@.len() - DIGEST_LEN,
            f.data@.len() as int,
        ),
{
    assert(f.pack_checksum_bytes() + f.index_checksum_bytes() =~= f.data@.subrange(
        f.data@.len() - 2 * DIGEST_LEN,
        f.data@.len() as int,
    ));
}

} // verus!
