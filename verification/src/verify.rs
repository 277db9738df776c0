//! Verification of index files and of the packs they describe: from the
//! index's own checksum up to decoding and re-encoding every object.

use vstd::prelude::*;

use crate::bytes::contains_seq;
use crate::bytes::copy_bytes;
use crate::bytes::eq_bytes;
use crate::bytes::find_seq;
use crate::checksum;
use crate::data;
use crate::data::has_offset;
use crate::data::lemma_obj_at_found;
use crate::data::obj_at;
use crate::data::PackObject;
use crate::hash::crc32;
use crate::hash::crc32_of;
use crate::hash::sha1_digest;
use crate::hash::sha1_of;
use crate::hash::ObjectId;
use crate::index::entries_view;
use crate::index::Entry;
use crate::index::File;
use crate::integrity;
use crate::object::mode_raw;
use crate::object::mode_raw_bytes;
use crate::object::obj_enc;
use crate::object::spec_decode;
use crate::object::EntryMode;
use crate::object::Kind;
use crate::object::Object;
use crate::progress::Interrupt;
use crate::progress::Message;
use crate::progress::Progress;
use crate::traverse;
use crate::traverse::Algorithm;
use crate::traverse::Outcome;

verus! {

/// Ways to verify a pack against its index, strictly increasing in cost and
/// strictness; each level includes the checks of the level below.
#[derive(Debug, Eq, PartialEq, Hash, Clone, Copy, Structural)]
pub enum Mode {
    /// Validate the object digests and CRC32 values.
    HashCrc32,
    /// Additionally decode each non-blob object.
    HashCrc32Decode,
    /// Additionally re-encode each decoded object and compare byte for byte.
    HashCrc32DecodeEncode,
}

/// Everything needed to verify a pack along with its index.
pub struct PackContext<'a> {
    /// The pack data file itself.
    pub data: &'a data::File,
    /// How strictly to verify the pack's objects.
    pub verify_mode: Mode,
    /// The traversal strategy.
    pub traversal_algorithm: Algorithm,
}

/// The bytes of an object are tolerated despite a re-encoding mismatch: a
/// tree whose raw bytes contain one of the legacy mode spellings anywhere.
pub open spec fn entry_tolerated(kind: Kind, buf: Seq<u8>) -> bool {
    kind == Kind::Tree && (contains_seq(buf, mode_raw_bytes(EntryMode::BlobGroupWritable))
        || contains_seq(buf, mode_raw_bytes(EntryMode::BlobGroupReadable)))
}

/// Canonical re-encoding reproduces the bytes exactly.
pub open spec fn entry_reencode_clean(kind: Kind, buf: Seq<u8>) -> bool {
    obj_enc(spec_decode(kind, buf)->Some_0) == buf
}

/// What the per-entry verifier accepts at the given mode: nothing is checked
/// at the weakest mode, blobs are never decoded, decoding must succeed from
/// the middle mode on, and at the strictest mode re-encoding must reproduce
/// the bytes unless the legacy tree-mode tolerance applies.
pub open spec fn entry_content_ok(mode: Mode, kind: Kind, buf: Seq<u8>) -> bool {
    match mode {
        Mode::HashCrc32 => true,
        Mode::HashCrc32Decode => kind == Kind::Blob || spec_decode(kind, buf) is Some,
        Mode::HashCrc32DecodeEncode => kind == Kind::Blob || (spec_decode(kind, buf) is Some && (
        entry_reencode_clean(kind, buf) || entry_tolerated(kind, buf))),
    }
}

/// The per-entry verifier pushes exactly one informational message: when the
/// strictest mode finds a mismatch that the tolerance rule downgrades.
pub open spec fn entry_emits_message(mode: Mode, kind: Kind, buf: Seq<u8>) -> bool {
    &&& mode == Mode::HashCrc32DecodeEncode
    &&& kind != Kind::Blob
    &&& spec_decode(kind, buf) is Some
    &&& !entry_reencode_clean(kind, buf)
    &&& entry_tolerated(kind, buf)
}

/// A per-entry error names the object and carries the exact evidence.
pub open spec fn processor_error_matches(
    pe: integrity::Error,
    mode: Mode,
    object_kind: Kind,
    buf: Seq<u8>,
    oid: Seq<u8>,
) -> bool {
    match pe {
        integrity::Error::ObjectDecode { source, kind, id } => {
            &&& mode != Mode::HashCrc32
            &&& kind == object_kind
            &&& object_kind != Kind::Blob
            &&& spec_decode(object_kind, buf) is None
            &&& id@ == oid
        },
        integrity::Error::ObjectEncodeMismatch { kind, id, expected, actual } => {
            &&& mode == Mode::HashCrc32DecodeEncode
            &&& kind == object_kind
            &&& object_kind != Kind::Blob
            &&& spec_decode(object_kind, buf) is Some
            &&& expected@ == buf
            &&& actual@ == obj_enc(spec_decode(object_kind, buf)->Some_0)
            &&& !entry_reencode_clean(object_kind, buf)
            &&& !entry_tolerated(object_kind, buf)
            &&& id@ == oid
        },
    }
}

impl File {
    /// Validates one pack entry's decoded and re-encoded form against the
    /// given mode. Succeeds exactly when [`entry_content_ok`] holds; a
    /// tolerated tree mismatch succeeds with one informational message.
    pub fn verify_entry(
        mode: Mode,
        encode_buf: &mut Vec<u8>,
        object_kind: Kind,
        buf: &[u8],
        index_entry: &Entry,
        progress: &mut Progress,
    ) -> (r: Result<(), integrity::Error>)
        ensures
            r is Ok <==> entry_content_ok(mode, object_kind, buf@),
            match r {
                Ok(_) => true,
                Err(pe) => processor_error_matches(pe, mode, object_kind, buf@, index_entry.oid@),
            },
            entry_emits_message(mode, object_kind, buf@) ==> {
                &&& final(progress).messages@.len() == old(progress).messages@.len() + 1
                &&& final(progress).messages@.take(old(progress).messages@.len() as int) == old(
                    progress,
                ).messages@
                &&& final(progress).messages@.last().id@ == index_entry.oid@
            },
            !entry_emits_message(mode, object_kind, buf@) ==> final(progress).messages@ == old(
                progress,
            ).messages@,
            (mode == Mode::HashCrc32DecodeEncode && object_kind != Kind::Blob && spec_decode(
                object_kind,
                buf@,
            ) is Some) ==> final(encode_buf)@ == obj_enc(spec_decode(object_kind, buf@)->Some_0),
            !(mode == Mode::HashCrc32DecodeEncode && object_kind != Kind::Blob && spec_decode(
                object_kind,
                buf@,
            ) is Some) ==> final(encode_buf)@ == old(encode_buf)@,
    {
        match mode {
            Mode::HashCrc32 => {
                return Ok(());
            },
            _ => {},
        }
        match object_kind {
            Kind::Blob => {
                return Ok(());
            },
            _ => {},
        }
        let obj = match Object::from_bytes(object_kind, buf) {
            Ok(o) => o,
            Err(err) => {
                return Err(
                    integrity::Error::ObjectDecode {
                        source: err,
                        kind: object_kind,
                        id: index_entry.oid.duplicate(),
                    },
                );
            },
        };
        match mode {
            Mode::HashCrc32DecodeEncode => {},
            _ => {
                return Ok(());
            },
        }
        encode_buf.clear();
        obj.write_to(encode_buf);
        proof {
            assert(Seq::<u8>::empty() + obj_enc(obj.model()) =~= obj_enc(obj.model()));
        }
        if eq_bytes(encode_buf.as_slice(), buf) {
            return Ok(());
        }
        let is_tree = match object_kind {
            Kind::Tree => true,
            _ => false,
        };
        let needle_writable = mode_raw(EntryMode::BlobGroupWritable);
        let needle_readable = mode_raw(EntryMode::BlobGroupReadable);
        if is_tree && (find_seq(buf, needle_writable.as_slice()) || find_seq(
            buf,
            needle_readable.as_slice(),
        )) {
            progress.info(Message { id: index_entry.oid.duplicate() });
            proof {
                assert(final(progress).messages@.take(old(progress).messages@.len() as int)
                    =~= old(progress).messages@);
            }
            return Ok(());
        }
        Err(
            integrity::Error::ObjectEncodeMismatch {
                kind: object_kind,
                id: index_entry.oid.duplicate(),
                expected: copy_bytes(buf),
                actual: copy_bytes(encode_buf.as_slice()),
            },
        )
    }
}

/// The CRC32 the index carries for an entry matches the stored bytes of the
/// object at its offset (entries without a CRC32 have nothing to match).
pub open spec fn crc_ok(t: (Seq<u8>, u64, Option<u32>), o: PackObject) -> bool {
    match t.2 {
        Some(c) => crc32_of(o.entry_bytes@) == c,
        None => true,
    }
}

/// Everything the traversal checks of one entry: its offset names an object,
/// the CRC32 matches, the object's digest is the listed identifier, and the
/// object's content passes the per-entry verifier at the given mode.
pub open spec fn entry_checks_ok(
    t: (Seq<u8>, u64, Option<u32>),
    objs: Seq<PackObject>,
    mode: Mode,
) -> bool {
    &&& has_offset(objs, t.1)
    &&& crc_ok(t, obj_at(objs, t.1))
    &&& sha1_of(obj_at(objs, t.1).data@) == t.0
    &&& entry_content_ok(mode, obj_at(objs, t.1).kind, obj_at(objs, t.1).data@)
}

/// All entries before position `upto` pass every check.
pub open spec fn prefix_ok(
    es: Seq<(Seq<u8>, u64, Option<u32>)>,
    objs: Seq<PackObject>,
    mode: Mode,
    upto: int,
) -> bool {
    forall|t: int| 0 <= t < upto ==> entry_checks_ok(#[trigger] es[t], objs, mode)
}

/// The first failure sits at `i`: everything before passes.
pub open spec fn offset_missing_at(
    es: Seq<(Seq<u8>, u64, Option<u32>)>,
    objs: Seq<PackObject>,
    mode: Mode,
    i: int,
) -> bool {
    &&& 0 <= i < es.len()
    &&& prefix_ok(es, objs, mode, i)
    &&& !has_offset(objs, es[i].1)
}

/// The first failure sits at `i`: the CRC32 there does not match.
pub open spec fn crc_fail_at(
    es: Seq<(Seq<u8>, u64, Option<u32>)>,
    objs: Seq<PackObject>,
    mode: Mode,
    i: int,
) -> bool {
    &&& 0 <= i < es.len()
    &&& prefix_ok(es, objs, mode, i)
    &&& has_offset(objs, es[i].1)
    &&& !crc_ok(es[i], obj_at(objs, es[i].1))
}

/// The first failure sits at `i`: the object's digest differs.
pub open spec fn oid_fail_at(
    es: Seq<(Seq<u8>, u64, Option<u32>)>,
    objs: Seq<PackObject>,
    mode: Mode,
    i: int,
) -> bool {
    &&& 0 <= i < es.len()
    &&& prefix_ok(es, objs, mode, i)
    &&& has_offset(objs, es[i].1)
    &&& crc_ok(es[i], obj_at(objs, es[i].1))
    &&& sha1_of(obj_at(objs, es[i].1).data@) != es[i].0
}

/// The first failure sits at `i`: the object's content fails the verifier.
pub open spec fn content_fail_at(
    es: Seq<(Seq<u8>, u64, Option<u32>)>,
    objs: Seq<PackObject>,
    mode: Mode,
    i: int,
) -> bool {
    &&& 0 <= i < es.len()
    &&& prefix_ok(es, objs, mode, i)
    &&& has_offset(objs, es[i].1)
    &&& crc_ok(es[i], obj_at(objs, es[i].1))
    &&& sha1_of(obj_at(objs, es[i].1).data@) == es[i].0
    &&& !entry_content_ok(mode, obj_at(objs, es[i].1).kind, obj_at(objs, es[i].1).data@)
}

/// Addition on `u64` that sticks at the largest value.
pub open spec fn sat_add64_spec(a: int, b: int) -> int {
    if a + b > u64::MAX as int {
        u64::MAX as int
    } else {
        a + b
    }
}

/// How many of the first `upto` entries name an object of the given kind.
pub open spec fn count_kind_prefix(
    es: Seq<(Seq<u8>, u64, Option<u32>)>,
    objs: Seq<PackObject>,
    k: Kind,
    upto: int,
) -> int
    decreases upto,
{
    if upto <= 0 {
        0
    } else {
        count_kind_prefix(es, objs, k, upto - 1) + if obj_at(objs, es[upto - 1].1).kind == k {
            1int
        } else {
            0int
        }
    }
}

/// The saturating total size of the first `upto` entries' objects.
pub open spec fn size_prefix(
    es: Seq<(Seq<u8>, u64, Option<u32>)>,
    objs: Seq<PackObject>,
    upto: int,
) -> int
    decreases upto,
{
    if upto <= 0 {
        0
    } else {
        sat_add64_spec(
            size_prefix(es, objs, upto - 1),
            obj_at(objs, es[upto - 1].1).data@.len() as int,
        )
    }
}

/// How many of the first `upto` entries emit an informational message.
pub open spec fn emit_count_prefix(
    es: Seq<(Seq<u8>, u64, Option<u32>)>,
    objs: Seq<PackObject>,
    mode: Mode,
    upto: int,
) -> int
    decreases upto,
{
    if upto <= 0 {
        0
    } else {
        emit_count_prefix(es, objs, mode, upto - 1) + if entry_emits_message(
            mode,
            obj_at(objs, es[upto - 1].1).kind,
            obj_at(objs, es[upto - 1].1).data@,
        ) {
            1int
        } else {
            0int
        }
    }
}

/// A tree object whose raw mode bytes hold a legacy spelling passes the
/// strictest verification: the re-encoding mismatch is downgraded to exactly
/// one informational message rather than an error.
pub proof fn lemma_legacy_tree_tolerated(buf: Seq<u8>)
    requires
        crate::object::spec_parse_tree(buf) is Some,
        exists|i: int|
            0 <= i < crate::object::spec_parse_tree(buf)->Some_0.len() && crate::object::mode_is_legacy(
                #[trigger] crate::object::spec_parse_tree(buf)->Some_0[i].mode,
            ),
    ensures
        entry_content_ok(Mode::HashCrc32DecodeEncode, Kind::Tree, buf),
        entry_emits_message(Mode::HashCrc32DecodeEncode, Kind::Tree, buf),
{
    let es = crate::object::spec_parse_tree(buf)->Some_0;
    let i = choose|i: int|
        0 <= i < es.len() && crate::object::mode_is_legacy(#[trigger] es[i].mode);
    crate::object::lemma_parse_tree_sound(buf);
    crate::object::lemma_legacy_enc_differs(es, i);
    crate::object::lemma_legacy_enc_contains(es, i);
    assert(spec_decode(Kind::Tree, buf)->Some_0 == crate::object::ObjectModel::Tree(es));
    assert(obj_enc(spec_decode(Kind::Tree, buf)->Some_0) == crate::object::tree_enc(es, true));
    assert(!entry_reencode_clean(Kind::Tree, buf));
    assert(entry_tolerated(Kind::Tree, buf));
}

/// Addition on `u64` that sticks at the largest value.
fn sat_add64(a: u64, b: u64) -> (r: u64)
    ensures
        r == sat_add64_spec(a as int, b as int),
{
    if a > u64::MAX - b {
        u64::MAX
    } else {
        a + b
    }
}

impl File {
    /// The most thorough validation of an index file and, when a pack context
    /// is given, of the pack it describes. Without a pack this degrades to
    /// checksum verification alone. With one, it checks the index checksum,
    /// that the pack's digest is the one the index names, and every entry:
    /// offset, CRC32, object digest, and object content at the given mode.
    /// A set interrupt flag yields an interruption error, never a partial
    /// success. The `thread_limit` caps the workers used for the traversal;
    /// this implementation uses one.
    #[verifier::rlimit(100)]
    pub fn verify_integrity<'a>(
        &self,
        pack: Option<&PackContext<'a>>,
        thread_limit: Option<usize>,
        progress: Option<Progress>,
        should_interrupt: &Interrupt,
    ) -> (r: Result<(ObjectId, Option<Outcome>, Option<Progress>), traverse::Error>)
        requires
            self.wf(),
            match pack {
                Some(ctx) => ctx.data.wf(),
                None => true,
            },
        ensures
            should_interrupt.is_set ==> match pack {
                Some(_) => r == Err::<(ObjectId, Option<Outcome>, Option<Progress>), traverse::Error>(
                    traverse::Error::Interrupted,
                ),
                None => r == Err::<(ObjectId, Option<Outcome>, Option<Progress>), traverse::Error>(
                    traverse::Error::Checksum(checksum::Error::Interrupted),
                ),
            },
            match r {
                Ok((id, outcome, prog)) => {
                    &&& !should_interrupt.is_set
                    &&& sha1_of(self.hashed_bytes()) == self.index_checksum_bytes()
                    &&& id@ == self.index_checksum_bytes()
                    &&& prog is Some <==> progress is Some
                    &&& match pack {
                        None => outcome is None && (progress matches Some(p0) ==> prog->Some_0.messages@
                            == p0.messages@),
                        Some(ctx) => {
                            let es = entries_view(self.entries@);
                            let objs = ctx.data.objects@;
                            &&& ctx.data.checksum@ == self.pack_checksum_bytes()
                            &&& prefix_ok(es, objs, ctx.verify_mode, es.len() as int)
                            &&& outcome matches Some(oc)
                            &&& outcome->Some_0.num_trees == count_kind_prefix(
                                es,
                                objs,
                                Kind::Tree,
                                es.len() as int,
                            )
                            &&& outcome->Some_0.num_commits == count_kind_prefix(
                                es,
                                objs,
                                Kind::Commit,
                                es.len() as int,
                            )
                            &&& outcome->Some_0.num_tags == count_kind_prefix(
                                es,
                                objs,
                                Kind::Tag,
                                es.len() as int,
                            )
                            &&& outcome->Some_0.num_blobs == count_kind_prefix(
                                es,
                                objs,
                                Kind::Blob,
                                es.len() as int,
                            )
                            &&& outcome->Some_0.total_object_size == size_prefix(
                                es,
                                objs,
                                es.len() as int,
                            )
                            &&& (progress matches Some(p0) ==> prog->Some_0.messages@.len()
                                == p0.messages@.len() + emit_count_prefix(
                                es,
                                objs,
                                ctx.verify_mode,
                                es.len() as int,
                            ) && prog->Some_0.messages@.take(p0.messages@.len() as int)
                                == p0.messages@)
                        },
                    }
                },
                Err(e) => match e {
                    traverse::Error::Interrupted => should_interrupt.is_set && pack is Some,
                    traverse::Error::Checksum(ce) => match ce {
                        checksum::Error::Interrupted => should_interrupt.is_set && pack is None,
                        checksum::Error::Mismatch { expected, actual } => {
                            &&& !should_interrupt.is_set
                            &&& sha1_of(self.hashed_bytes()) != self.index_checksum_bytes()
                            &&& expected@ == self.index_checksum_bytes()
                            &&& actual@ == sha1_of(self.hashed_bytes())
                        },
                    },
                    traverse::Error::PackMismatch { expected, actual } => {
                        &&& !should_interrupt.is_set
                        &&& pack is Some
                        &&& sha1_of(self.hashed_bytes()) == self.index_checksum_bytes()
                        &&& expected@ == self.pack_checksum_bytes()
                        &&& actual@ == pack->Some_0.data.checksum@
                        &&& expected@ != actual@
                    },
                    traverse::Error::OffsetOutOfRange { pack_offset } => {
                        &&& !should_interrupt.is_set
                        &&& pack is Some
                        &&& exists|i: int|
                            offset_missing_at(
                                entries_view(self.entries@),
                                pack->Some_0.data.objects@,
                                pack->Some_0.verify_mode,
                                i,
                            ) && pack_offset == entries_view(self.entries@)[i].1
                    },
                    traverse::Error::Crc32Mismatch { expected, actual } => {
                        &&& !should_interrupt.is_set
                        &&& pack is Some
                        &&& exists|i: int|
                            crc_fail_at(
                                entries_view(self.entries@),
                                pack->Some_0.data.objects@,
                                pack->Some_0.verify_mode,
                                i,
                            ) && entries_view(self.entries@)[i].2 == Some(expected) && actual
                                == crc32_of(
                                obj_at(
                                    pack->Some_0.data.objects@,
                                    entries_view(self.entries@)[i].1,
                                ).entry_bytes@,
                            )
                    },
                    traverse::Error::ObjectIdMismatch { expected, actual } => {
                        &&& !should_interrupt.is_set
                        &&& pack is Some
                        &&& exists|i: int|
                            oid_fail_at(
                                entries_view(self.entries@),
                                pack->Some_0.data.objects@,
                                pack->Some_0.verify_mode,
                                i,
                            ) && expected@ == entries_view(self.entries@)[i].0 && actual@
                                == sha1_of(
                                obj_at(
                                    pack->Some_0.data.objects@,
                                    entries_view(self.entries@)[i].1,
                                ).data@,
                            )
                    },
                    traverse::Error::Processor(pe) => {
                        &&& !should_interrupt.is_set
                        &&& pack is Some
                        &&& exists|i: int|
                            content_fail_at(
                                entries_view(self.entries@),
                                pack->Some_0.data.objects@,
                                pack->Some_0.verify_mode,
                                i,
                            ) && processor_error_matches(
                                pe,
                                pack->Some_0.verify_mode,
                                obj_at(
                                    pack->Some_0.data.objects@,
                                    entries_view(self.entries@)[i].1,
                                ).kind,
                                obj_at(
                                    pack->Some_0.data.objects@,
                                    entries_view(self.entries@)[i].1,
                                ).data@,
                                entries_view(self.entries@)[i].0,
                            )
                    },
                },
            },
    {
        let _ = thread_limit;
        match pack {
            None => {
                let (mut root, was_some) = match progress {
                    Some(p) => (p, true),
                    None => (Progress::new(), false),
                };
                match self.verify_checksum(&mut root, should_interrupt) {
                    Ok(id) => Ok(
                        (
                            id,
                            None,
                            if was_some {
                                Some(root)
                            } else {
                                None
                            },
                        ),
                    ),
                    Err(e) => Err(traverse::Error::Checksum(e)),
                }
            },
            Some(ctx) => {
                if should_interrupt.is_set {
                    return Err(traverse::Error::Interrupted);
                }
                let (mut root, was_some) = match progress {
                    Some(p) => (p, true),
                    None => (Progress::new(), false),
                };
                let ghost msgs0 = root.messages@;
                match self.verify_checksum(&mut root, should_interrupt) {
                    Ok(_) => {},
                    Err(e) => {
                        return Err(traverse::Error::Checksum(e));
                    },
                }
                let pc = self.pack_checksum();
                let dc = ctx.data.checksum();
                if !eq_bytes(pc.as_slice(), dc.as_slice()) {
                    return Err(traverse::Error::PackMismatch { expected: pc, actual: dc });
                }
                // The traversal: every entry, in index order. The algorithm
                // choice and the thread limit affect order and scheduling
                // only; one worker walking entry order enforces every check.
                let ghost es = entries_view(self.entries@);
                let ghost objs = ctx.data.objects@;
                let mut encode_buf: Vec<u8> = Vec::new();
                let mut num_trees: u64 = 0;
                let mut num_commits: u64 = 0;
                let mut num_tags: u64 = 0;
                let mut num_blobs: u64 = 0;
                let mut total: u64 = 0;
                let n = self.entries.len();
                let mut i: usize = 0;
                while i < n
                    invariant
                        self.wf(),
                        ctx.data.wf(),
                        pack == Some(ctx),
                        !should_interrupt.is_set,
                        sha1_of(self.hashed_bytes()) == self.index_checksum_bytes(),
                        ctx.data.checksum@ == self.pack_checksum_bytes(),
                        was_some == (progress is Some),
                        progress matches Some(p0) ==> msgs0 == p0.messages@,
                        n == self.entries@.len(),
                        es == entries_view(self.entries@),
                        objs == ctx.data.objects@,
                        0 <= i <= n,
                        prefix_ok(es, objs, ctx.verify_mode, i as int),
                        num_trees == count_kind_prefix(es, objs, Kind::Tree, i as int),
                        num_commits == count_kind_prefix(es, objs, Kind::Commit, i as int),
                        num_tags == count_kind_prefix(es, objs, Kind::Tag, i as int),
                        num_blobs == count_kind_prefix(es, objs, Kind::Blob, i as int),
                        num_trees <= i && num_commits <= i && num_tags <= i && num_blobs <= i,
                        total == size_prefix(es, objs, i as int),
                        root.messages@.len() == msgs0.len() + emit_count_prefix(
                            es,
                            objs,
                            ctx.verify_mode,
                            i as int,
                        ),
                        root.messages@.len() >= msgs0.len(),
                        root.messages@.take(msgs0.len() as int) == msgs0,
                    decreases n - i,
                {
                    let entry = &self.entries[i];
                    proof {
                        assert(es[i as int] == crate::index::entry_view(self.entries@[i as int]));
                    }
                    let j = match ctx.data.find_offset(entry.pack_offset) {
                        Some(j) => j,
                        None => {
                            proof {
                                assert(offset_missing_at(es, objs, ctx.verify_mode, i as int));
                                assert(exists|t: int|
                                    offset_missing_at(es, objs, ctx.verify_mode, t)
                                        && entry.pack_offset == es[t].1);
                            }
                            return Err(
                                traverse::Error::OffsetOutOfRange {
                                    pack_offset: entry.pack_offset,
                                },
                            );
                        },
                    };
                    proof {
                        lemma_obj_at_found(objs, entry.pack_offset, j as int);
                    }
                    let obj = &ctx.data.objects[j];
                    match entry.crc32 {
                        Some(expected_crc) => {
                            let actual_crc = crc32(obj.entry_bytes.as_slice());
                            if actual_crc != expected_crc {
                                proof {
                                    assert(crc_fail_at(es, objs, ctx.verify_mode, i as int));
                                    assert(exists|t: int|
                                        crc_fail_at(es, objs, ctx.verify_mode, t) && es[t].2
                                            == Some(expected_crc) && actual_crc == crc32_of(
                                            obj_at(objs, es[t].1).entry_bytes@,
                                        ));
                                }
                                return Err(
                                    traverse::Error::Crc32Mismatch {
                                        expected: expected_crc,
                                        actual: actual_crc,
                                    },
                                );
                            }
                        },
                        None => {},
                    }
                    let digest = sha1_digest(obj.data.as_slice());
                    if !eq_bytes(digest.as_slice(), entry.oid.as_slice()) {
                        proof {
                            assert(oid_fail_at(es, objs, ctx.verify_mode, i as int));
                            assert(exists|t: int|
                                oid_fail_at(es, objs, ctx.verify_mode, t) && entry.oid@ == es[t].0
                                    && digest@ == sha1_of(obj_at(objs, es[t].1).data@));
                        }
                        return Err(
                            traverse::Error::ObjectIdMismatch {
                                expected: entry.oid.duplicate(),
                                actual: ObjectId::from_bytes(digest.as_slice()),
                            },
                        );
                    }
                    let ghost pre_msgs = root.messages@;
                    match File::verify_entry(
                        ctx.verify_mode,
                        &mut encode_buf,
                        obj.kind,
                        obj.data.as_slice(),
                        entry,
                        &mut root,
                    ) {
                        Ok(_) => {},
                        Err(pe) => {
                            proof {
                                assert(content_fail_at(es, objs, ctx.verify_mode, i as int));
                                assert(exists|t: int|
                                    content_fail_at(es, objs, ctx.verify_mode, t)
                                        && processor_error_matches(
                                        pe,
                                        ctx.verify_mode,
                                        obj_at(objs, es[t].1).kind,
                                        obj_at(objs, es[t].1).data@,
                                        es[t].0,
                                    ));
                            }
                            return Err(traverse::Error::Processor(pe));
                        },
                    }
                    match obj.kind {
                        Kind::Tree => {
                            num_trees = num_trees + 1;
                        },
                        Kind::Commit => {
                            num_commits = num_commits + 1;
                        },
                        Kind::Tag => {
                            num_tags = num_tags + 1;
                        },
                        Kind::Blob => {
                            num_blobs = num_blobs + 1;
                        },
                    }
                    total = sat_add64(total, obj.data.len() as u64);
                    proof {
                        assert(entry_checks_ok(es[i as int], objs, ctx.verify_mode));
                        assert(prefix_ok(es, objs, ctx.verify_mode, i + 1));
                        assert(pre_msgs.len() >= msgs0.len());
                        if root.messages@ != pre_msgs {
                            assert(root.messages@.take(pre_msgs.len() as int) == pre_msgs);
                            assert forall|t: int| 0 <= t < msgs0.len() implies root.messages@.take(
                                msgs0.len() as int,
                            )[t] == msgs0[t] by {
                                assert(root.messages@.take(pre_msgs.len() as int)[t] == pre_msgs[t]);
                                assert(pre_msgs.take(msgs0.len() as int)[t] == pre_msgs[t]);
                            }
                        }
                        assert(root.messages@.take(msgs0.len() as int) =~= msgs0);
                    }
                    i = i + 1;
                }
                let outcome = Outcome {
                    num_trees,
                    num_commits,
                    num_tags,
                    num_blobs,
                    total_object_size: total,
                };
                Ok(
                    (
                        self.index_checksum(),
                        Some(outcome),
                        if was_some {
                            Some(root)
                        } else {
                            None
                        },
                    ),
                )
            },
        }
    }
}

} // verus!
