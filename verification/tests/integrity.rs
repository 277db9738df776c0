use odb_core::checksum::Error as ChecksumError;
use odb_core::data;
use odb_core::hash::{HashKind, ObjectId};
use odb_core::index::{Entry, File};
use odb_core::object::Kind;
use odb_core::progress::{Interrupt, Progress};
use odb_core::traverse::{Algorithm, Error as TraverseError};
use odb_core::verify::{Mode, PackContext};

fn sha1(bytes: &[u8]) -> Vec<u8> {
    let mut h = git_features::hash::Sha1::default();
    h.update(bytes);
    h.digest().to_vec()
}

fn tree_entry_bytes(mode: &str, name: &str, oid_byte: u8) -> Vec<u8> {
    let mut v = Vec::new();
    v.extend_from_slice(mode.as_bytes());
    v.push(b' ');
    v.extend_from_slice(name.as_bytes());
    v.push(0);
    v.extend_from_slice(&[oid_byte; 20]);
    v
}

/// A pack of three objects — a tree with a legacy mode, a commit, a blob —
/// and an index that describes it exactly.
fn pack_and_index() -> (data::File, File) {
    let tree_bytes = tree_entry_bytes("100664", "legacy", 1);
    let mut commit_bytes = Vec::new();
    commit_bytes.extend_from_slice(b"tree ");
    commit_bytes.extend_from_slice(&[b'a'; 40]);
    commit_bytes.push(b'\n');
    commit_bytes.extend_from_slice(b"author a <a@b> 0 +0000\n\nmsg\n");
    let blob_bytes = b"just bytes".to_vec();

    let contents: [(u64, Kind, Vec<u8>); 3] = [
        (12, Kind::Tree, tree_bytes),
        (200, Kind::Commit, commit_bytes),
        (321, Kind::Blob, blob_bytes),
    ];
    let mut objects = Vec::new();
    let mut entries = Vec::new();
    for (offset, kind, bytes) in contents {
        // The stored (compressed) form is opaque; any bytes stand for it.
        let mut stored = bytes.clone();
        stored.push(0xAA);
        let crc = git_features::hash::crc32(&stored);
        entries.push(Entry {
            oid: ObjectId::from_bytes(&sha1(&bytes)),
            pack_offset: offset,
            crc32: Some(crc),
        });
        objects.push(data::PackObject { pack_offset: offset, kind, entry_bytes: stored, data: bytes });
    }

    let pack_digest = [42u8; 20];
    let pack = data::File { objects, checksum: ObjectId::from_bytes(&pack_digest) };

    let mut index_data = b"header".to_vec();
    index_data.extend_from_slice(&pack_digest);
    let index_digest = sha1(&index_data);
    index_data.extend_from_slice(&index_digest);
    let index = File::from_parts(index_data, HashKind::Sha1, entries).expect("well-formed");
    (pack, index)
}

fn context(pack: &data::File, mode: Mode) -> PackContext<'_> {
    PackContext { data: pack, verify_mode: mode, traversal_algorithm: Algorithm::Lookup }
}

#[test]
fn three_object_pack_verifies_with_one_message() {
    let (pack, index) = pack_and_index();
    let flag = Interrupt::new(false);
    let (id, outcome, progress) = index
        .verify_integrity(
            Some(&context(&pack, Mode::HashCrc32DecodeEncode)),
            None,
            Some(Progress::new()),
            &flag,
        )
        .expect("the pack verifies");
    assert!(id == index.index_checksum());
    let outcome = outcome.expect("a traversal happened");
    assert_eq!(outcome.num_trees, 1);
    assert_eq!(outcome.num_commits, 1);
    assert_eq!(outcome.num_blobs, 1);
    assert_eq!(outcome.num_tags, 0);
    let total: u64 = pack.objects.iter().map(|o| o.data.len() as u64).sum();
    assert_eq!(outcome.total_object_size, total);
    // Exactly one informational message: the legacy tree-mode cleanup note.
    let progress = progress.expect("progress returned");
    assert_eq!(progress.messages.len(), 1);
    assert!(progress.messages[0].id == index.entries[0].oid);
}

#[test]
fn interrupt_set_before_traversal_yields_interruption() {
    let (pack, index) = pack_and_index();
    let flag = Interrupt::new(true);
    let r = index.verify_integrity(
        Some(&context(&pack, Mode::HashCrc32)),
        None,
        Some(Progress::new()),
        &flag,
    );
    assert!(matches!(r, Err(TraverseError::Interrupted)));

    // Without a pack, the interruption surfaces from checksum verification.
    let r = index.verify_integrity(None, None, Some(Progress::new()), &flag);
    assert!(matches!(r, Err(TraverseError::Checksum(ChecksumError::Interrupted))));
}

#[test]
fn without_pack_context_only_the_checksum_is_verified() {
    let (_, index) = pack_and_index();
    let flag = Interrupt::new(false);
    let (id, outcome, progress) = index
        .verify_integrity(None, None, Some(Progress::new()), &flag)
        .expect("checksum verifies");
    assert!(id == index.index_checksum());
    assert!(outcome.is_none());
    assert_eq!(progress.expect("progress returned").messages.len(), 0);
}

#[test]
fn pack_digest_mismatch_is_reported() {
    let (mut pack, index) = pack_and_index();
    pack.checksum = ObjectId::from_bytes(&[9u8; 20]);
    let flag = Interrupt::new(false);
    let r = index.verify_integrity(
        Some(&context(&pack, Mode::HashCrc32)),
        None,
        None,
        &flag,
    );
    match r {
        Err(TraverseError::PackMismatch { expected, actual }) => {
            assert!(expected == index.pack_checksum());
            assert!(actual == pack.checksum);
        },
        other => panic!("expected a pack mismatch, got {:?}", other),
    }
}

#[test]
fn offset_crc_and_object_id_failures_are_reported() {
    // An entry pointing at no object.
    let (pack, mut index) = pack_and_index();
    index.entries[1].pack_offset = 999;
    let flag = Interrupt::new(false);
    let r = index.verify_integrity(Some(&context(&pack, Mode::HashCrc32)), None, None, &flag);
    assert!(matches!(r, Err(TraverseError::OffsetOutOfRange { pack_offset: 999 })));

    // A wrong CRC32.
    let (pack, mut index) = pack_and_index();
    let want = index.entries[0].crc32.unwrap();
    index.entries[0].crc32 = Some(want ^ 1);
    let r = index.verify_integrity(Some(&context(&pack, Mode::HashCrc32)), None, None, &flag);
    match r {
        Err(TraverseError::Crc32Mismatch { expected, actual }) => {
            assert_eq!(expected, want ^ 1);
            assert_eq!(actual, want);
        },
        other => panic!("expected a CRC mismatch, got {:?}", other),
    }

    // A wrong object identifier.
    let (pack, mut index) = pack_and_index();
    index.entries[2].oid = ObjectId::from_bytes(&[1u8; 20]);
    let r = index.verify_integrity(Some(&context(&pack, Mode::HashCrc32)), None, None, &flag);
    match r {
        Err(TraverseError::ObjectIdMismatch { expected, actual }) => {
            assert!(expected == ObjectId::from_bytes(&[1u8; 20]));
            assert!(actual == ObjectId::from_bytes(&sha1(&pack.objects[2].data)));
        },
        other => panic!("expected an identifier mismatch, got {:?}", other),
    }
}

#[test]
fn undecodable_object_fails_from_decode_mode_on() {
    let (mut pack, mut index) = pack_and_index();
    // Corrupt the tree's content; keep the index consistent with it.
    pack.objects[0].data = b"100699 broken\x00".to_vec();
    index.entries[0].oid = ObjectId::from_bytes(&sha1(&pack.objects[0].data));
    index.entries[0].crc32 = Some(git_features::hash::crc32(&pack.objects[0].entry_bytes));
    let flag = Interrupt::new(false);

    // The weakest mode does not decode: it passes.
    let r = index.verify_integrity(Some(&context(&pack, Mode::HashCrc32)), None, None, &flag);
    assert!(r.is_ok());

    // The decoding modes reject it.
    let r = index.verify_integrity(Some(&context(&pack, Mode::HashCrc32Decode)), None, None, &flag);
    match r {
        Err(TraverseError::Processor(odb_core::integrity::Error::ObjectDecode { kind, id, .. })) => {
            assert_eq!(kind, Kind::Tree);
            assert!(id == index.entries[0].oid);
        },
        other => panic!("expected a decode failure, got {:?}", other),
    }
}

#[test]
fn verify_entry_modes_and_tolerance() {
    let tree_bytes = tree_entry_bytes("100664", "legacy", 1);
    let entry = Entry { oid: ObjectId::from_bytes(&sha1(&tree_bytes)), pack_offset: 0, crc32: None };
    let mut progress = Progress::new();
    let mut encode_buf = Vec::new();

    // The weakest mode never decodes: a no-op.
    assert!(File::verify_entry(Mode::HashCrc32, &mut encode_buf, Kind::Tree, b"garbage", &entry, &mut progress).is_ok());
    assert_eq!(progress.messages.len(), 0);

    // Decoding succeeds for a legacy tree; no message below the encode mode.
    assert!(File::verify_entry(Mode::HashCrc32Decode, &mut encode_buf, Kind::Tree, &tree_bytes, &entry, &mut progress).is_ok());
    assert_eq!(progress.messages.len(), 0);

    // At the strictest mode the mismatch is tolerated with one message.
    assert!(File::verify_entry(Mode::HashCrc32DecodeEncode, &mut encode_buf, Kind::Tree, &tree_bytes, &entry, &mut progress).is_ok());
    assert_eq!(progress.messages.len(), 1);
    assert!(progress.messages[0].id == entry.oid);

    // Blobs are never decoded, whatever the mode.
    assert!(File::verify_entry(Mode::HashCrc32DecodeEncode, &mut encode_buf, Kind::Blob, b"anything", &entry, &mut progress).is_ok());
    assert_eq!(progress.messages.len(), 1);
}

#[test]
fn untolerated_reencode_mismatch_is_an_error() {
    // A zero-prefixed directory mode re-encodes as `40000` and enjoys no
    // tolerance: a hard mismatch.
    let tree_bytes = tree_entry_bytes("040000", "dir", 2);
    let entry = Entry { oid: ObjectId::from_bytes(&sha1(&tree_bytes)), pack_offset: 0, crc32: None };
    let mut progress = Progress::new();
    let mut encode_buf = Vec::new();
    match File::verify_entry(Mode::HashCrc32DecodeEncode, &mut encode_buf, Kind::Tree, &tree_bytes, &entry, &mut progress) {
        Err(odb_core::integrity::Error::ObjectEncodeMismatch { kind, id, expected, actual }) => {
            assert_eq!(kind, Kind::Tree);
            assert!(id == entry.oid);
            assert_eq!(expected, tree_bytes);
            assert_eq!(actual, tree_entry_bytes("40000", "dir", 2));
        },
        other => panic!("expected an encode mismatch, got {:?}", other),
    }
    assert_eq!(progress.messages.len(), 0);
}
