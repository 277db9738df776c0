use odb_core::object::{decode_commit, decode_tag, decode_tree, DecodeError, EntryMode, Kind, Object};

fn tree_entry_bytes(mode: &str, name: &str, oid_byte: u8) -> Vec<u8> {
    let mut v = Vec::new();
    v.extend_from_slice(mode.as_bytes());
    v.push(b' ');
    v.extend_from_slice(name.as_bytes());
    v.push(0);
    v.extend_from_slice(&[oid_byte; 20]);
    v
}

fn encode(obj: &Object) -> Vec<u8> {
    let mut out = Vec::new();
    obj.write_to(&mut out);
    out
}

#[test]
fn tree_round_trip_canonical() {
    let mut bytes = tree_entry_bytes("40000", "dir", 1);
    bytes.extend_from_slice(&tree_entry_bytes("100644", "file name with spaces", 2));
    bytes.extend_from_slice(&tree_entry_bytes("100755", "run", 3));
    bytes.extend_from_slice(&tree_entry_bytes("120000", "link", 4));
    bytes.extend_from_slice(&tree_entry_bytes("160000", "module", 5));
    let obj = Object::from_bytes(Kind::Tree, &bytes).expect("canonical tree decodes");
    assert_eq!(encode(&obj), bytes);
}

#[test]
fn empty_tree_round_trip() {
    let obj = Object::from_bytes(Kind::Tree, &[]).expect("empty tree decodes");
    assert_eq!(encode(&obj), Vec::<u8>::new());
}

#[test]
fn tree_legacy_mode_is_normalized_on_encode() {
    let bytes = tree_entry_bytes("100664", "legacy", 9);
    let tree = decode_tree(&bytes).expect("legacy tree decodes");
    assert!(matches!(tree.entries[0].mode, EntryMode::BlobGroupWritable));
    let out = encode(&Object::Tree(tree));
    assert_eq!(out, tree_entry_bytes("100644", "legacy", 9));
    assert_ne!(out, bytes);

    let bytes = tree_entry_bytes("100640", "older", 7);
    let tree = decode_tree(&bytes).expect("legacy tree decodes");
    assert!(matches!(tree.entries[0].mode, EntryMode::BlobGroupReadable));
    assert_eq!(encode(&Object::Tree(tree)), tree_entry_bytes("100644", "older", 7));

    let bytes = tree_entry_bytes("040000", "dir", 8);
    let tree = decode_tree(&bytes).expect("zero-prefixed tree decodes");
    assert!(matches!(tree.entries[0].mode, EntryMode::TreeLeadingZero));
    assert_eq!(encode(&Object::Tree(tree)), tree_entry_bytes("40000", "dir", 8));
}

#[test]
fn tree_decode_rejects_bad_bytes() {
    // An unknown mode.
    assert!(matches!(decode_tree(&tree_entry_bytes("100645", "x", 1)), Err(DecodeError::Invalid)));
    // An empty filename.
    assert!(matches!(decode_tree(&tree_entry_bytes("100644", "", 1)), Err(_)));
    // A truncated identifier.
    let mut short = tree_entry_bytes("100644", "x", 1);
    short.pop();
    assert!(matches!(decode_tree(&short), Err(_)));
    // No separator at all.
    assert!(matches!(decode_tree(b"100644"), Err(_)));
}

#[test]
fn commit_round_trip_and_rejects() {
    let mut bytes = Vec::new();
    bytes.extend_from_slice(b"tree ");
    bytes.extend_from_slice(&[b'a'; 40]);
    bytes.push(b'\n');
    bytes.extend_from_slice(b"author a <a@b> 0 +0000\n\nmsg\n");
    let obj = Object::from_bytes(Kind::Commit, &bytes).expect("commit decodes");
    assert_eq!(encode(&obj), bytes);

    // A non-hex character in the digest is rejected.
    let mut bad = bytes.clone();
    bad[6] = b'g';
    assert!(matches!(decode_commit(&bad), Err(DecodeError::Invalid)));
    // A missing newline after the digest is rejected.
    let mut bad = bytes.clone();
    bad[45] = b' ';
    assert!(matches!(decode_commit(&bad), Err(_)));
}

#[test]
fn tag_round_trip_and_rejects() {
    let mut bytes = Vec::new();
    bytes.extend_from_slice(b"object ");
    bytes.extend_from_slice(&[b'0'; 40]);
    bytes.push(b'\n');
    bytes.extend_from_slice(b"type commit\ntag v1\n");
    let obj = Object::from_bytes(Kind::Tag, &bytes).expect("tag decodes");
    assert_eq!(encode(&obj), bytes);
    assert!(matches!(decode_tag(b"object tooshort\n"), Err(_)));
}

#[test]
fn blob_is_kept_verbatim() {
    let bytes = vec![0u8, 1, 2, 250];
    let obj = Object::from_bytes(Kind::Blob, &bytes).expect("blobs always decode");
    assert_eq!(encode(&obj), bytes);
}
