//! The store aggregator: the mutable, refreshable collection of pack indices
//! and loose-object stores, handing out immutable point-in-time snapshots.

use vstd::prelude::*;

use crate::hash::HashKind;
use crate::index;
use crate::index::entries_view;
use crate::loose;

verus! {

/// What loading further indices may do when none is pending.
#[derive(Debug, PartialEq, Eq, Clone, Copy, Structural)]
pub enum RefreshMode {
    /// Assume the known set of indices is complete; never look for new ones.
    Never,
    /// Once every known index is loaded, look for newly arrived ones. New
    /// indices reach this in-memory store only by explicit insertion, so
    /// loading behaves as with `Never`.
    AfterAllIndicesLoaded,
}

/// Index discovery or parsing failed while loading one more index.
#[derive(Debug, PartialEq, Eq, Clone, Copy, Structural)]
pub enum LoadIndexError {
    /// The next index's raw parts do not form a well-formed index file.
    Corrupt,
}

/// The mathematical content of one index: raw bytes, hash kind, entries.
pub open spec fn lookup_view(l: IndexLookup) -> (Seq<u8>, HashKind, Seq<(Seq<u8>, u64, Option<u32>)>) {
    (l.file.data@, l.file.object_hash, entries_view(l.file.entries@))
}

/// The mathematical content of a sequence of loaded indices.
pub open spec fn looks_view(ls: Seq<IndexLookup>) -> Seq<
    (Seq<u8>, HashKind, Seq<(Seq<u8>, u64, Option<u32>)>),
> {
    ls.map(|i: int, l: IndexLookup| lookup_view(l))
}

/// The mathematical content of one pending index's raw parts.
pub open spec fn pending_view(p: PendingIndex) -> (Seq<u8>, HashKind, Seq<(Seq<u8>, u64, Option<u32>)>) {
    (p.data@, p.object_hash, entries_view(p.entries@))
}

/// The mathematical content of the pending queue.
pub open spec fn pendings_view(ps: Seq<PendingIndex>) -> Seq<
    (Seq<u8>, HashKind, Seq<(Seq<u8>, u64, Option<u32>)>),
> {
    ps.map(|i: int, p: PendingIndex| pending_view(p))
}

/// The mathematical content of the loose stores.
pub open spec fn looses_view(ds: Seq<loose::Store>) -> Seq<Seq<Option<Seq<u8>>>> {
    ds.map(|i: int, d: loose::Store| d.view_items())
}

/// A handle to one loaded pack index together with the pack it describes.
pub struct IndexLookup {
    /// The loaded index file.
    pub file: index::File,
}

impl IndexLookup {
    /// A well-formed lookup holds a well-formed index file.
    pub open spec fn wf(self) -> bool {
        self.file.wf()
    }

    /// The identifiers this index holds, in stored order.
    pub open spec fn oids(self) -> Seq<Seq<u8>> {
        self.file.entries@.map(|i: int, e: index::Entry| e.oid@)
    }

    /// How many objects this index describes.
    pub fn num_objects(&self) -> (r: u32)
        requires
            self.wf(),
        ensures
            r == self.oids().len(),
    {
        self.file.num_objects()
    }

    /// The identifier of the object at the given position.
    pub fn oid_at_index(&self, index: u32) -> (r: crate::hash::ObjectId)
        requires
            self.wf(),
            index < self.oids().len(),
        ensures
            r@ == self.oids()[index as int],
    {
        self.file.oid_at_index(index)
    }

    /// An owned copy of this lookup.
    pub fn duplicate(&self) -> (r: IndexLookup)
        ensures
            lookup_view(r) == lookup_view(*self),
            r.oids() == self.oids(),
            self.wf() ==> r.wf(),
    {
        let r = IndexLookup { file: self.file.duplicate() };
        proof {
            let ra = r.file.entries@;
            let sa = self.file.entries@;
            assert(entries_view(ra).len() == ra.len());
            assert(entries_view(sa).len() == sa.len());
            assert forall|i: int| 0 <= i < ra.len() implies (#[trigger] ra[i]).oid@
                == sa[i].oid@ by {
                assert(entries_view(ra)[i] == entries_view(sa)[i]);
                assert(entries_view(ra)[i] == index::entry_view(ra[i]));
                assert(entries_view(sa)[i] == index::entry_view(sa[i]));
            }
            assert(r.oids() =~= self.oids());
        }
        r
    }
}

/// The raw parts of an index known on disk but not loaded yet.
pub struct PendingIndex {
    /// The index file's raw bytes.
    pub data: Vec<u8>,
    /// The kind of hash the file's digests use.
    pub object_hash: HashKind,
    /// The entries decoded from the file.
    pub entries: Vec<index::Entry>,
}

/// Whether a pending index's parts form a well-formed index file.
pub open spec fn pending_wf(p: PendingIndex) -> bool {
    index::parts_wf(p.data@, p.entries@)
}

/// Whether a pending index's parts form a well-formed index file.
fn pending_is_wf(p: &PendingIndex) -> (r: bool)
    ensures
        r == pending_wf(*p),
{
    if p.data.len() < 2 * crate::hash::DIGEST_LEN {
        return false;
    }
    if p.entries.len() > u32::MAX as usize {
        return false;
    }
    let n = p.entries.len();
    let mut j: usize = 0;
    while j < n
        invariant
            n == p.entries@.len(),
            0 <= j <= n,
            forall|i: int| 0 <= i < j ==> (#[trigger] p.entries@[i]).oid.wf(),
        decreases n - j,
    {
        if p.entries[j].oid.as_slice().len() != crate::hash::DIGEST_LEN {
            return false;
        }
        j = j + 1;
    }
    true
}

/// An immutable, point-in-time view of the loaded indices and loose stores.
/// A snapshot's contents never change after creation; refreshed state comes
/// as a new snapshot with a newer marker.
pub struct Snapshot {
    /// The loaded indices, best-ranked first.
    pub indices: Vec<IndexLookup>,
    /// The loose-object stores, in list order.
    pub loose_dbs: Vec<loose::Store>,
    /// The generation of the aggregator's state at capture time.
    pub marker: u64,
}

impl Snapshot {
    /// All indices of a well-formed snapshot are well formed.
    pub open spec fn wf(self) -> bool {
        forall|i: int| 0 <= i < self.indices@.len() ==> (#[trigger] self.indices@[i]).wf()
    }
}

/// The store aggregator: owns the loaded indices, the raw parts of indices
/// not yet loaded, and the loose stores, and hands out snapshots.
pub struct Store {
    /// The indices loaded so far, best-ranked first.
    pub loaded: Vec<IndexLookup>,
    /// The indices known but not loaded yet, next first.
    pub pending: Vec<PendingIndex>,
    /// The loose-object stores, in list order.
    pub loose_dbs: Vec<loose::Store>,
    /// The generation of this store's state; grows by one per loaded index.
    pub generation: u64,
}

impl Store {
    /// A well-formed store: loaded indices are well formed and the
    /// generation counter has room for every pending load.
    pub open spec fn wf(self) -> bool {
        &&& forall|i: int| 0 <= i < self.loaded@.len() ==> (#[trigger] self.loaded@[i]).wf()
        &&& self.generation + self.pending@.len() <= u64::MAX
    }

    /// Captures the current state without any loading: the loaded indices,
    /// the loose stores, and the current generation as the marker.
    pub fn collect_snapshot(&self) -> (r: Snapshot)
        requires
            self.wf(),
        ensures
            r.wf(),
            r.marker == self.generation,
            looks_view(r.indices@) == looks_view(self.loaded@),
            looses_view(r.loose_dbs@) == looses_view(self.loose_dbs@),
    {
        let n = self.loaded.len();
        let mut indices: Vec<IndexLookup> = Vec::new();
        let mut j: usize = 0;
        while j < n
            invariant
                n == self.loaded@.len(),
                self.wf(),
                0 <= j <= n,
                indices@.len() == j,
                forall|k: int|
                    0 <= k < j ==> lookup_view(#[trigger] indices@[k]) == lookup_view(
                        self.loaded@[k],
                    ) && indices@[k].wf(),
            decreases n - j,
        {
            indices.push(self.loaded[j].duplicate());
            j = j + 1;
        }
        let m = self.loose_dbs.len();
        let mut loose_dbs: Vec<loose::Store> = Vec::new();
        let mut k: usize = 0;
        while k < m
            invariant
                m == self.loose_dbs@.len(),
                0 <= k <= m,
                loose_dbs@.len() == k,
                forall|t: int|
                    0 <= t < k ==> (#[trigger] loose_dbs@[t]).view_items()
                        == self.loose_dbs@[t].view_items(),
            decreases m - k,
        {
            loose_dbs.push(self.loose_dbs[k].duplicate());
            k = k + 1;
        }
        let r = Snapshot { indices, loose_dbs, marker: self.generation };
        proof {
            assert(looks_view(r.indices@) =~= looks_view(self.loaded@));
            assert(looses_view(r.loose_dbs@) =~= looses_view(self.loose_dbs@));
        }
        r
    }

    /// Attempts to load the next not-yet-loaded index. With a stale marker it
    /// returns a fresh snapshot of the current state without loading. With
    /// the current marker it loads the next pending index and returns a new
    /// snapshot, fails with `Corrupt` when that index's parts are malformed,
    /// and returns `None` once nothing remains to load — the caller's loop
    /// termination signal, not an error.
    pub fn load_one_index(&mut self, refresh_mode: RefreshMode, marker: u64) -> (r: Result<
        Option<Snapshot>,
        LoadIndexError,
    >)
        requires
            old(self).wf(),
        ensures
            final(self).wf(),
            final(self).loose_dbs == old(self).loose_dbs,
            match r {
                Ok(None) => {
                    &&& marker == old(self).generation
                    &&& old(self).pending@.len() == 0
                    &&& *final(self) == *old(self)
                },
                Ok(Some(snap)) => {
                    &&& snap.wf()
                    &&& snap.marker == final(self).generation
                    &&& looks_view(snap.indices@) == looks_view(final(self).loaded@)
                    &&& looses_view(snap.loose_dbs@) == looses_view(final(self).loose_dbs@)
                    &&& if marker != old(self).generation {
                        *final(self) == *old(self)
                    } else {
                        &&& old(self).pending@.len() > 0
                        &&& pending_wf(old(self).pending@[0])
                        &&& final(self).generation == old(self).generation + 1
                        &&& looks_view(final(self).loaded@) == looks_view(old(self).loaded@).push(
                            pending_view(old(self).pending@[0]),
                        )
                        &&& final(self).pending@ == old(self).pending@.skip(1)
                    }
                },
                Err(e) => {
                    &&& e == LoadIndexError::Corrupt
                    &&& marker == old(self).generation
                    &&& old(self).pending@.len() > 0
                    &&& !pending_wf(old(self).pending@[0])
                    &&& *final(self) == *old(self)
                },
            },
    {
        let _ = refresh_mode;
        if marker != self.generation {
            return Ok(Some(self.collect_snapshot()));
        }
        if self.pending.len() == 0 {
            return Ok(None);
        }
        if !pending_is_wf(&self.pending[0]) {
            return Err(LoadIndexError::Corrupt);
        }
        let p = self.pending.remove(0);
        match index::File::from_parts(p.data, p.object_hash, p.entries) {
            Some(f) => {
                let lk = IndexLookup { file: f };
                self.loaded.push(lk);
                self.generation = self.generation + 1;
                proof {
                    assert(looks_view(self.loaded@) =~= looks_view(old(self).loaded@).push(
                        pending_view(old(self).pending@[0]),
                    ));
                }
                Ok(Some(self.collect_snapshot()))
            },
            None => {
                proof {
                    assert(false);
                }
                Err(LoadIndexError::Corrupt)
            },
        }
    }
}

/// A handle onto a store, the usual entry point of read-only callers.
pub struct Handle {
    /// The aggregator this handle works on.
    pub store: Store,
}

} // verus!
