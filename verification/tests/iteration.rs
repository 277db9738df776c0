use odb_core::hash::{HashKind, ObjectId};
use odb_core::index::Entry;
use odb_core::loose;
use odb_core::store::{LoadIndexError, PendingIndex, RefreshMode, Store};

fn oid(b: u8) -> ObjectId {
    ObjectId::from_bytes(&[b; 20])
}

fn pending_with_oids(oid_bytes: &[u8]) -> PendingIndex {
    let entries: Vec<Entry> = oid_bytes
        .iter()
        .map(|&b| Entry { oid: oid(b), pack_offset: b as u64, crc32: None })
        .collect();
    PendingIndex { data: vec![0u8; 40], object_hash: HashKind::Sha1, entries }
}

fn store_with(pending: Vec<PendingIndex>, loose_dbs: Vec<loose::Store>) -> Store {
    Store { loaded: Vec::new(), pending, loose_dbs, generation: 0 }
}

#[test]
fn iterates_packs_in_rank_order_then_loose_stores() {
    let loose_one = loose::Store { entries: vec![loose::Item::Id(oid(10)), loose::Item::Unreadable] };
    let loose_two = loose::Store { entries: vec![loose::Item::Id(oid(11))] };
    let mut store = store_with(
        vec![pending_with_oids(&[1, 2]), pending_with_oids(&[3])],
        vec![loose_one, loose_two],
    );
    let mut iter = store.iter().expect("all indices load");

    // The lower bound equals the packed-object count, loose stores aside.
    assert_eq!(iter.size_hint(), (3, None));

    // Packs first, each exhausted fully, then the loose stores in order.
    let expected: Vec<ObjectId> = vec![oid(1), oid(2), oid(3)];
    for want in expected {
        let got = iter.next().expect("an item").expect("packed yields are infallible");
        assert!(got == want);
    }
    assert!(iter.next().unwrap().unwrap() == oid(10));
    assert!(matches!(iter.next(), Some(Err(loose::Error::Io))));
    assert!(iter.next().unwrap().unwrap() == oid(11));

    // Exhaustion is terminal: end-of-sequence, again and again.
    assert!(iter.next().is_none());
    assert!(iter.next().is_none());
    assert_eq!(iter.size_hint(), (3, None));
}

#[test]
fn empty_store_yields_nothing() {
    let mut store = store_with(Vec::new(), Vec::new());
    let mut iter = store.iter().expect("nothing to load");
    assert_eq!(iter.size_hint().0, 0);
    assert!(iter.next().is_none());
    assert!(iter.next().is_none());
}

#[test]
fn packs_only_and_loose_only() {
    let mut packs_only = store_with(vec![pending_with_oids(&[5])], Vec::new());
    let mut iter = packs_only.iter().expect("index loads");
    assert!(iter.next().unwrap().unwrap() == oid(5));
    assert!(iter.next().is_none());

    let loose_db = loose::Store { entries: vec![loose::Item::Id(oid(6))] };
    let mut loose_only = store_with(Vec::new(), vec![loose_db]);
    let mut iter = loose_only.iter().expect("nothing to load");
    assert_eq!(iter.size_hint().0, 0);
    assert!(iter.next().unwrap().unwrap() == oid(6));
    assert!(iter.next().is_none());
}

#[test]
fn corrupt_pending_index_fails_loading() {
    let corrupt = PendingIndex { data: vec![0u8; 10], object_hash: HashKind::Sha1, entries: Vec::new() };
    let mut store = store_with(vec![corrupt], Vec::new());
    assert!(matches!(store.iter(), Err(LoadIndexError::Corrupt)));
}

#[test]
fn load_one_index_steps_through_generations() {
    let mut store = store_with(vec![pending_with_oids(&[1]), pending_with_oids(&[2])], Vec::new());
    let snapshot = store.collect_snapshot();
    assert_eq!(snapshot.marker, 0);
    assert_eq!(snapshot.indices.len(), 0);

    let one = store
        .load_one_index(RefreshMode::Never, snapshot.marker)
        .expect("loads")
        .expect("one more index");
    assert_eq!(one.marker, 1);
    assert_eq!(one.indices.len(), 1);

    // A stale marker catches up without loading anything further.
    let caught_up = store.load_one_index(RefreshMode::Never, 0).expect("ok").expect("snapshot");
    assert_eq!(caught_up.marker, 1);
    assert_eq!(caught_up.indices.len(), 1);

    let two = store.load_one_index(RefreshMode::Never, 1).expect("ok").expect("snapshot");
    assert_eq!(two.marker, 2);
    assert_eq!(two.indices.len(), 2);

    // Everything is loaded: the termination signal, not an error.
    assert!(store.load_one_index(RefreshMode::Never, 2).expect("ok").is_none());
}

#[test]
fn handle_iter_matches_store_iter() {
    let mut handle = odb_core::store::Handle { store: store_with(vec![pending_with_oids(&[9])], Vec::new()) };
    let mut iter = handle.iter().expect("index loads");
    assert!(iter.next().unwrap().unwrap() == oid(9));
    assert!(iter.next().is_none());
}
