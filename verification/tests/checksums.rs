use odb_core::checksum::Error as ChecksumError;
use odb_core::hash::{HashKind, ObjectId};
use odb_core::index::{Entry, File};
use odb_core::progress::{Interrupt, Progress};

fn sha1(bytes: &[u8]) -> Vec<u8> {
    let mut h = git_features::hash::Sha1::default();
    h.update(bytes);
    h.digest().to_vec()
}

/// An index file whose trailing digests are consistent with its body.
fn well_formed_index(body: &[u8], pack_digest: &[u8; 20], entries: Vec<Entry>) -> File {
    let mut data = body.to_vec();
    data.extend_from_slice(pack_digest);
    let index_digest = sha1(&data);
    data.extend_from_slice(&index_digest);
    File::from_parts(data, HashKind::default(), entries).expect("well-formed parts")
}

#[test]
fn hash_kind_default_is_sha1() {
    assert_eq!(HashKind::default(), HashKind::Sha1);
    assert_eq!(HashKind::default().len_in_bytes(), 20);
}

#[test]
fn trailing_checksums_are_adjacent_slices() {
    let pack_digest = [7u8; 20];
    let file = well_formed_index(b"index body bytes", &pack_digest, Vec::new());
    let index_checksum = file.index_checksum();
    let pack_checksum = file.pack_checksum();
    let len = file.data.len();
    assert_eq!(index_checksum.as_slice(), &file.data[len - 20..]);
    assert_eq!(pack_checksum.as_slice(), &file.data[len - 40..len - 20]);
    assert_eq!(pack_checksum.as_slice(), &pack_digest);
}

#[test]
fn from_parts_rejects_short_data() {
    assert!(File::from_parts(vec![0u8; 39], HashKind::Sha1, Vec::new()).is_none());
    let entry = Entry { oid: ObjectId::from_bytes(&[1u8; 20]), pack_offset: 0, crc32: None };
    assert!(File::from_parts(vec![0u8; 40], HashKind::Sha1, vec![entry]).is_some());
}

#[test]
fn verify_checksum_accepts_untampered_file() {
    let file = well_formed_index(b"some index contents", &[3u8; 20], Vec::new());
    let mut progress = Progress::new();
    let flag = Interrupt::new(false);
    let got = file.verify_checksum(&mut progress, &flag).expect("untampered file verifies");
    assert!(got == file.index_checksum());
}

#[test]
fn verify_checksum_rejects_flipped_byte() {
    let file = well_formed_index(b"some index contents", &[3u8; 20], Vec::new());
    let mut data = file.data.clone();
    data[0] ^= 0x01;
    let tampered = File::from_parts(data, HashKind::Sha1, Vec::new()).expect("still well-formed");
    let mut progress = Progress::new();
    let flag = Interrupt::new(false);
    match tampered.verify_checksum(&mut progress, &flag) {
        Err(ChecksumError::Mismatch { expected, actual }) => {
            assert!(expected == tampered.index_checksum());
            assert!(!(actual == tampered.index_checksum()));
        },
        other => panic!("expected a mismatch, got {:?}", other),
    }
}

#[test]
fn verify_checksum_honors_interrupt() {
    let file = well_formed_index(b"contents", &[3u8; 20], Vec::new());
    let mut progress = Progress::new();
    let flag = Interrupt::new(true);
    assert!(matches!(
        file.verify_checksum(&mut progress, &flag),
        Err(ChecksumError::Interrupted)
    ));
}
