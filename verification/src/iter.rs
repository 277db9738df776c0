//! The all-objects iterator: a forward-only state machine walking every pack
//! index of a snapshot (each exhausted fully, best-ranked first), then every
//! loose store in list order, yielding each object identifier exactly once.

use vstd::prelude::*;

use crate::hash::HashKind;
use crate::hash::ObjectId;
use crate::loose;
use crate::store::looks_view;
use crate::store::looses_view;
use crate::store::lookup_view;
use crate::store::pending_view;
use crate::store::pendings_view;
use crate::store::pending_wf;
use crate::store::Handle;
use crate::store::IndexLookup;
use crate::store::LoadIndexError;
use crate::store::RefreshMode;
use crate::store::Snapshot;
use crate::store::Store;

verus! {

/// The identifiers one index view holds, in stored order.
pub open spec fn view_oids(v: (Seq<u8>, HashKind, Seq<(Seq<u8>, u64, Option<u32>)>)) -> Seq<
    Seq<u8>,
> {
    v.2.map(|i: int, t: (Seq<u8>, u64, Option<u32>)| t.0)
}

/// Identifiers as iterator items: every one a successful yield.
pub open spec fn items_of_oids(oids: Seq<Seq<u8>>) -> Seq<Option<Seq<u8>>> {
    oids.map(|i: int, o: Seq<u8>| Some(o))
}

/// The items of every index from position `from` on, in ranked order.
pub open spec fn packs_items(
    vs: Seq<(Seq<u8>, HashKind, Seq<(Seq<u8>, u64, Option<u32>)>)>,
    from: int,
) -> Seq<Option<Seq<u8>>>
    decreases vs.len() - from,
{
    if from < 0 || from >= vs.len() {
        Seq::empty()
    } else {
        items_of_oids(view_oids(vs[from])) + packs_items(vs, from + 1)
    }
}

/// The items of every loose store from position `from` on, in list order.
pub open spec fn looses_items(ws: Seq<Seq<Option<Seq<u8>>>>, from: int) -> Seq<Option<Seq<u8>>>
    decreases ws.len() - from,
{
    if from < 0 || from >= ws.len() {
        Seq::empty()
    } else {
        ws[from] + looses_items(ws, from + 1)
    }
}

/// Addition on machine-word counts that sticks at the largest value.
pub open spec fn sat_add_spec(a: int, b: int) -> int {
    if a + b > usize::MAX as int {
        usize::MAX as int
    } else {
        a + b
    }
}

/// The saturating sum of the object counts of the first `upto` indices.
pub open spec fn packed_count_prefix(
    vs: Seq<(Seq<u8>, HashKind, Seq<(Seq<u8>, u64, Option<u32>)>)>,
    upto: int,
) -> int
    decreases upto,
{
    if upto <= 0 {
        0
    } else {
        sat_add_spec(packed_count_prefix(vs, upto - 1), view_oids(vs[upto - 1]).len() as int)
    }
}

/// A lookup's identifiers equal the identifiers of its view.
pub proof fn lemma_lookup_oids(l: IndexLookup)
    ensures
        l.oids() == view_oids(lookup_view(l)),
{
    let es = l.file.entries@;
    assert forall|i: int| 0 <= i < es.len() implies view_oids(lookup_view(l))[i] == (
    #[trigger] es[i]).oid@ by {
        assert(lookup_view(l).2[i] == crate::index::entry_view(es[i]));
    }
    assert(l.oids() =~= view_oids(lookup_view(l)));
}

/// Where the iterator stands.
pub enum State {
    /// Walking the pack indices: all of them, the current one's position,
    /// the cursor into its entries, and its object count.
    Pack {
        /// Every index of the snapshot, ranked order.
        indices: Vec<IndexLookup>,
        /// The position of the index being walked.
        current: usize,
        /// The cursor into the current index's entries.
        entry_index: u32,
        /// The current index's object count.
        num_objects: u32,
    },
    /// Walking the loose stores: the live iterator and the store's position.
    Loose {
        /// The iterator over the current loose store.
        iter: loose::Iter,
        /// The position of the loose store being walked.
        index: usize,
    },
    /// Every source is exhausted; stays this way.
    Depleted,
}

/// The rank of a state: strictly falls at each phase change.
pub open spec fn state_rank(s: State) -> int {
    match s {
        State::Pack { .. } => 2,
        State::Loose { .. } => 1,
        State::Depleted => 0,
    }
}

/// How many indices are left in the pack phase.
pub open spec fn state_pack_ctr(s: State) -> int {
    match s {
        State::Pack { indices, current, .. } => indices@.len() - current,
        _ => 0,
    }
}

/// How many loose stores are left in the loose phase.
pub open spec fn state_loose_ctr(s: State, dbs_len: int) -> int {
    match s {
        State::Loose { index, .. } => dbs_len - index,
        _ => 0,
    }
}

/// An iterator over all objects of a snapshot: packed objects first, pack by
/// pack, then loose objects, store by store. Yields each identifier once; it
/// is not restartable once exhausted.
pub struct AllObjects {
    /// Where the iteration stands.
    pub state: State,
    /// The packed-object count: the saturating sum of every index's count.
    pub num_objects: usize,
    /// The loose stores still to be walked after the packs.
    pub loose_dbs: Vec<loose::Store>,
}

impl AllObjects {
    /// Structural soundness of the iterator's state.
    pub open spec fn wf(self) -> bool {
        match self.state {
            State::Pack { indices, current, entry_index, num_objects } => {
                &&& current < indices@.len()
                &&& forall|i: int| 0 <= i < indices@.len() ==> (#[trigger] indices@[i]).wf()
                &&& num_objects == indices@[current as int].oids().len()
                &&& entry_index <= num_objects
            },
            State::Loose { iter, index } => iter.wf() && index < self.loose_dbs@.len(),
            State::Depleted => true,
        }
    }

    /// The items this iterator has yet to yield: a successful yield holds the
    /// identifier's bytes, a failed loose read holds nothing.
    pub open spec fn remaining(self) -> Seq<Option<Seq<u8>>> {
        match self.state {
            State::Pack { indices, current, entry_index, num_objects } => {
                let vs = looks_view(indices@);
                items_of_oids(view_oids(vs[current as int]).skip(entry_index as int))
                    + packs_items(vs, current + 1) + looses_items(
                    looses_view(self.loose_dbs@),
                    0,
                )
            },
            State::Loose { iter, index } => iter.remaining() + looses_items(
                looses_view(self.loose_dbs@),
                index + 1,
            ),
            State::Depleted => Seq::empty(),
        }
    }
}

/// Everything constructing an iterator guarantees: the store ends fully
/// loaded (or untouched past the first corrupt index), and the iterator will
/// yield exactly the items of the loaded indices, in ranked order, then of
/// the loose stores, with the packed-object count precomputed.
pub open spec fn new_post(pre: Store, post: Store, r: Result<AllObjects, LoadIndexError>) -> bool {
    &&& post.wf()
    &&& post.loose_dbs == pre.loose_dbs
    &&& match r {
        Ok(it) => {
            &&& forall|i: int|
                0 <= i < pre.pending@.len() ==> pending_wf(#[trigger] pre.pending@[i])
            &&& post.pending@.len() == 0
            &&& post.generation == pre.generation + pre.pending@.len()
            &&& looks_view(post.loaded@) == looks_view(pre.loaded@) + pendings_view(pre.pending@)
            &&& it.wf()
            &&& it.remaining() == packs_items(looks_view(post.loaded@), 0) + looses_items(
                looses_view(post.loose_dbs@),
                0,
            )
            &&& it.num_objects == packed_count_prefix(
                looks_view(post.loaded@),
                post.loaded@.len() as int,
            )
        },
        Err(e) => {
            &&& e == LoadIndexError::Corrupt
            &&& exists|i: int| load_failed_at(pre, post, i)
        },
    }
}

/// Loading stopped at position `i` of the pending queue: everything before it
/// was loaded, the index there is malformed, and nothing else changed.
pub open spec fn load_failed_at(pre: Store, post: Store, i: int) -> bool {
    &&& 0 <= i < pre.pending@.len()
    &&& !pending_wf(pre.pending@[i])
    &&& forall|j: int| 0 <= j < i ==> pending_wf(#[trigger] pre.pending@[j])
    &&& looks_view(post.loaded@) == looks_view(pre.loaded@) + pendings_view(pre.pending@.take(i))
    &&& post.pending@ == pre.pending@.skip(i)
    &&& post.generation == pre.generation + i
}

/// Addition on machine-word counts that sticks at the largest value.
fn sat_add(a: usize, b: usize) -> (r: usize)
    ensures
        r == sat_add_spec(a as int, b as int),
{
    if a > usize::MAX - b {
        usize::MAX
    } else {
        a + b
    }
}

impl AllObjects {
    /// Creates the iterator from a store, first forcing every known index to
    /// be loaded so the packed-object count is exact and stable.
    pub fn new(db: &mut Store) -> (r: Result<AllObjects, LoadIndexError>)
        requires
            old(db).wf(),
        ensures
            new_post(*old(db), *final(db), r),
    {
        let ghost pre = *old(db);
        let mut snapshot = db.collect_snapshot();
        let ghost mut k: int = 0;
        proof {
            assert(pre.pending@.take(0) =~= Seq::<crate::store::PendingIndex>::empty());
            assert(pendings_view(pre.pending@.take(0)) =~= Seq::<
                (Seq<u8>, HashKind, Seq<(Seq<u8>, u64, Option<u32>)>),
            >::empty());
            assert(looks_view(pre.loaded@) + pendings_view(pre.pending@.take(0)) =~= looks_view(
                pre.loaded@,
            ));
            assert(pre.pending@.skip(0) =~= pre.pending@);
        }
        let mut load_error: Option<LoadIndexError> = None;
        loop
            invariant_except_break
                0 <= k <= pre.pending@.len(),
                db.generation == pre.generation + k,
                looks_view(db.loaded@) == looks_view(pre.loaded@) + pendings_view(
                    pre.pending@.take(k),
                ),
                db.pending@ == pre.pending@.skip(k),
                forall|j: int| 0 <= j < k ==> pending_wf(#[trigger] pre.pending@[j]),
                load_error is None,
            invariant
                db.wf(),
                snapshot.wf(),
                snapshot.marker == db.generation,
                looks_view(snapshot.indices@) == looks_view(db.loaded@),
                looses_view(snapshot.loose_dbs@) == looses_view(db.loose_dbs@),
                db.loose_dbs == pre.loose_dbs,
            ensures
                match load_error {
                    None => {
                        &&& forall|j: int|
                            0 <= j < pre.pending@.len() ==> pending_wf(#[trigger] pre.pending@[j])
                        &&& db.generation == pre.generation + pre.pending@.len()
                        &&& looks_view(db.loaded@) == looks_view(pre.loaded@) + pendings_view(
                            pre.pending@,
                        )
                        &&& db.pending@.len() == 0
                    },
                    Some(e) => e == LoadIndexError::Corrupt && exists|i: int|
                        load_failed_at(pre, *db, i),
                },
            decreases pre.pending@.len() - k,
        {
            let ghost before = *db;
            match db.load_one_index(RefreshMode::Never, snapshot.marker) {
                Ok(Some(ns)) => {
                    snapshot = ns;
                    proof {
                        assert(before.pending@[0] == pre.pending@[k]);
                        assert(pre.pending@.take(k + 1) =~= pre.pending@.take(k).push(
                            pre.pending@[k],
                        ));
                        assert(pendings_view(pre.pending@.take(k + 1)) =~= pendings_view(
                            pre.pending@.take(k),
                        ).push(pending_view(pre.pending@[k])));
                        assert(looks_view(db.loaded@) =~= looks_view(pre.loaded@) + pendings_view(
                            pre.pending@.take(k + 1),
                        ));
                        assert(db.pending@ =~= pre.pending@.skip(k + 1));
                        k = k + 1;
                    }
                },
                Ok(None) => {
                    proof {
                        assert(pre.pending@.skip(k).len() == 0);
                        assert(k == pre.pending@.len());
                        assert(pre.pending@.take(k) =~= pre.pending@);
                    }
                    break ;
                },
                Err(e) => {
                    load_error = Some(e);
                    proof {
                        assert(before.pending@[0] == pre.pending@[k]);
                        assert(!pending_wf(pre.pending@[k]));
                        assert(load_failed_at(pre, *db, k));
                    }
                    break ;
                },
            }
        }
        match load_error {
            Some(e) => {
                return Err(e);
            },
            None => {},
        }
        // Every index is loaded; sum the object counts, saturating.
        let n = snapshot.indices.len();
        let mut packed: usize = 0;
        let mut i: usize = 0;
        while i < n
            invariant
                n == snapshot.indices@.len(),
                snapshot.wf(),
                0 <= i <= n,
                packed == packed_count_prefix(looks_view(snapshot.indices@), i as int),
            decreases n - i,
        {
            let c = snapshot.indices[i].num_objects();
            proof {
                lemma_lookup_oids(snapshot.indices@[i as int]);
                assert(looks_view(snapshot.indices@)[i as int] == lookup_view(
                    snapshot.indices@[i as int],
                ));
            }
            packed = sat_add(packed, c as usize);
            i = i + 1;
        }
        let Snapshot { indices, loose_dbs, marker: _ } = snapshot;
        let ghost vs = looks_view(indices@);
        let ghost ws = looses_view(loose_dbs@);
        if indices.len() > 0 {
            let num0 = indices[0].num_objects();
            proof {
                lemma_lookup_oids(indices@[0]);
            }
            let it = AllObjects {
                state: State::Pack { indices, current: 0, entry_index: 0, num_objects: num0 },
                num_objects: packed,
                loose_dbs,
            };
            proof {
                assert(view_oids(vs[0]).skip(0) =~= view_oids(vs[0]));
                assert(items_of_oids(view_oids(vs[0])) + packs_items(vs, 1) + looses_items(ws, 0)
                    =~= packs_items(vs, 0) + looses_items(ws, 0));
            }
            Ok(it)
        } else if loose_dbs.len() > 0 {
            let it0 = loose_dbs[0].iter();
            let it = AllObjects {
                state: State::Loose { iter: it0, index: 0 },
                num_objects: packed,
                loose_dbs,
            };
            proof {
                assert(packs_items(vs, 0) =~= Seq::<Option<Seq<u8>>>::empty());
                assert(ws[0] == it.loose_dbs@[0].view_items());
                assert(it.remaining() =~= packs_items(vs, 0) + looses_items(ws, 0));
            }
            Ok(it)
        } else {
            let it = AllObjects { state: State::Depleted, num_objects: packed, loose_dbs };
            proof {
                assert(packs_items(vs, 0) =~= Seq::<Option<Seq<u8>>>::empty());
                assert(looses_items(ws, 0) =~= Seq::<Option<Seq<u8>>>::empty());
                assert(it.remaining() =~= packs_items(vs, 0) + looses_items(ws, 0));
            }
            Ok(it)
        }
    }

    /// The already-known packed-object count as the lower bound; loose
    /// objects are not pre-counted, so no upper bound is promised.
    pub fn size_hint(&self) -> (r: (usize, Option<usize>))
        ensures
            r.0 == self.num_objects,
            r.1 is None,
    {
        (self.num_objects, None)
    }

    /// Yields the next item: packed identifiers first (infallible), then the
    /// loose stores' outcomes. Returns `None` exactly once everything is
    /// exhausted, and forever after.
    pub fn next(&mut self) -> (r: Option<Result<ObjectId, loose::Error>>)
        requires
            old(self).wf(),
        ensures
            final(self).wf(),
            final(self).num_objects == old(self).num_objects,
            match r {
                Some(item) => old(self).remaining().len() > 0 && loose::result_view(item) == old(
                    self,
                ).remaining()[0] && final(self).remaining() == old(self).remaining().skip(1),
                None => old(self).remaining().len() == 0 && final(self).remaining().len() == 0
                    && final(self).state is Depleted,
            },
    {
        loop
            invariant
                self.wf(),
                self.remaining() == old(self).remaining(),
                self.num_objects == old(self).num_objects,
                self.loose_dbs == old(self).loose_dbs,
            decreases
                    state_rank(self.state),
                    state_pack_ctr(self.state),
                    state_loose_ctr(self.state, self.loose_dbs@.len() as int),
        {
            let ghost rem = self.remaining();
            match &mut self.state {
                State::Depleted => {
                    return None;
                },
                State::Pack { indices, current, entry_index, num_objects } => {
                    let ghost vs = looks_view(indices@);
                    let ghost cur = *current as int;
                    let ghost e = *entry_index as int;
                    if *entry_index < *num_objects {
                        let oid = indices[*current].oid_at_index(*entry_index);
                        *entry_index = *entry_index + 1;
                        proof {
                            lemma_lookup_oids(indices@[cur]);
                            let oids = view_oids(vs[cur]);
                            assert(items_of_oids(oids.skip(e))[0] == Some(oids[e]));
                            assert(rem[0] == Some(oids[e]));
                            assert(items_of_oids(oids.skip(e)).skip(1) =~= items_of_oids(
                                oids.skip(e + 1),
                            ));
                            assert(self.remaining() =~= rem.skip(1));
                        }
                        return Some(Ok(oid));
                    } else if *current < indices.len() - 1 {
                        *current = *current + 1;
                        *entry_index = 0;
                        let c = indices[*current].num_objects();
                        *num_objects = c;
                        proof {
                            lemma_lookup_oids(indices@[cur + 1]);
                            assert(view_oids(vs[cur]).skip(e) =~= Seq::<Seq<u8>>::empty());
                            assert(items_of_oids(view_oids(vs[cur]).skip(e)) =~= Seq::<
                                Option<Seq<u8>>,
                            >::empty());
                            assert(view_oids(vs[cur + 1]).skip(0) =~= view_oids(vs[cur + 1]));
                            assert(self.remaining() =~= rem);
                        }
                    } else {
                        proof {
                            assert(view_oids(vs[cur]).skip(e) =~= Seq::<Seq<u8>>::empty());
                            assert(items_of_oids(view_oids(vs[cur]).skip(e)) =~= Seq::<
                                Option<Seq<u8>>,
                            >::empty());
                            assert(packs_items(vs, cur + 1) =~= Seq::<Option<Seq<u8>>>::empty());
                            assert(rem =~= looses_items(looses_view(self.loose_dbs@), 0));
                        }
                        if self.loose_dbs.len() > 0 {
                            let it0 = self.loose_dbs[0].iter();
                            let ghost ws = looses_view(self.loose_dbs@);
                            proof {
                                assert(ws[0] == self.loose_dbs@[0].view_items());
                            }
                            self.state = State::Loose { iter: it0, index: 0 };
                            proof {
                                assert(self.remaining() =~= rem);
                            }
                        } else {
                            self.state = State::Depleted;
                            proof {
                                assert(looses_view(self.loose_dbs@).len() == 0);
                                assert(self.remaining() =~= rem);
                            }
                        }
                    }
                },
                State::Loose { iter, index } => {
                    let ghost ws = looses_view(self.loose_dbs@);
                    let ghost ix = *index as int;
                    match iter.next() {
                        Some(item) => {
                            proof {
                                assert(self.remaining() =~= rem.skip(1));
                            }
                            return Some(item);
                        },
                        None => {
                            if *index < self.loose_dbs.len() - 1 {
                                let next_index = *index + 1;
                                *index = next_index;
                                *iter = self.loose_dbs[next_index].iter();
                                proof {
                                    assert(ws[ix + 1] == self.loose_dbs@[ix + 1].view_items());
                                    assert(rem =~= looses_items(ws, ix + 1));
                                    assert(self.remaining() =~= rem);
                                }
                            } else {
                                self.state = State::Depleted;
                                proof {
                                    assert(looses_items(ws, ix + 1) =~= Seq::<
                                        Option<Seq<u8>>,
                                    >::empty());
                                    assert(rem =~= Seq::<Option<Seq<u8>>>::empty());
                                }
                            }
                        },
                    }
                },
            }
        }
    }
}

/// The identifiers of every index from `from` on, concatenated in order.
pub open spec fn oids_concat(
    vs: Seq<(Seq<u8>, HashKind, Seq<(Seq<u8>, u64, Option<u32>)>)>,
    from: int,
) -> Seq<Seq<u8>>
    decreases vs.len() - from,
{
    if from < 0 || from >= vs.len() {
        Seq::empty()
    } else {
        view_oids(vs[from]) + oids_concat(vs, from + 1)
    }
}

/// The exact (unsaturated) object count of every index from `from` on.
pub open spec fn exact_count(
    vs: Seq<(Seq<u8>, HashKind, Seq<(Seq<u8>, u64, Option<u32>)>)>,
    from: int,
) -> int
    decreases vs.len() - from,
{
    if from < 0 || from >= vs.len() {
        0
    } else {
        view_oids(vs[from]).len() + exact_count(vs, from + 1)
    }
}

/// The exact object count of the first `upto` indices.
pub open spec fn exact_prefix(
    vs: Seq<(Seq<u8>, HashKind, Seq<(Seq<u8>, u64, Option<u32>)>)>,
    upto: int,
) -> int
    decreases upto,
{
    if upto <= 0 {
        0
    } else {
        exact_prefix(vs, upto - 1) + view_oids(vs[upto - 1]).len()
    }
}

/// The pack part of the iteration is exactly the identifiers of all indices,
/// concatenated in ranked order, each one a successful yield.
pub proof fn lemma_packs_items_order(
    vs: Seq<(Seq<u8>, HashKind, Seq<(Seq<u8>, u64, Option<u32>)>)>,
    from: int,
)
    ensures
        packs_items(vs, from) == items_of_oids(oids_concat(vs, from)),
        packs_items(vs, from).len() == exact_count(vs, from),
        exact_count(vs, from) >= 0,
    decreases vs.len() - from,
{
    if from < 0 || from >= vs.len() {
        assert(items_of_oids(oids_concat(vs, from)) =~= Seq::<Option<Seq<u8>>>::empty());
    } else {
        lemma_packs_items_order(vs, from + 1);
        assert(items_of_oids(view_oids(vs[from]) + oids_concat(vs, from + 1)) =~= items_of_oids(
            view_oids(vs[from]),
        ) + items_of_oids(oids_concat(vs, from + 1)));
    }
}

/// For all snapshots: the iteration yields the packed identifiers first —
/// the concatenation of every index's identifiers in ranked order, each a
/// successful yield — followed by the loose stores' items.
pub proof fn lemma_iteration_order(
    vs: Seq<(Seq<u8>, HashKind, Seq<(Seq<u8>, u64, Option<u32>)>)>,
    ws: Seq<Seq<Option<Seq<u8>>>>,
)
    ensures
        (packs_items(vs, 0) + looses_items(ws, 0)).len() == exact_count(vs, 0) + looses_items(
            ws,
            0,
        ).len(),
        forall|t: int|
            0 <= t < exact_count(vs, 0) ==> (packs_items(vs, 0) + looses_items(ws, 0))[t] == Some(
                oids_concat(vs, 0)[t],
            ),
        forall|t: int|
            0 <= t < looses_items(ws, 0).len() ==> (packs_items(vs, 0) + looses_items(
                ws,
                0,
            ))[exact_count(vs, 0) + t] == looses_items(ws, 0)[t],
{
    lemma_packs_items_order(vs, 0);
    assert forall|t: int| 0 <= t < exact_count(vs, 0) implies (packs_items(vs, 0) + looses_items(
        ws,
        0,
    ))[t] == Some(oids_concat(vs, 0)[t]) by {
        assert(packs_items(vs, 0)[t] == items_of_oids(oids_concat(vs, 0))[t]);
    }
}

/// The counts of both sum forms agree: summing the first `upto` indices and
/// then the rest gives the total.
proof fn lemma_exact_split(
    vs: Seq<(Seq<u8>, HashKind, Seq<(Seq<u8>, u64, Option<u32>)>)>,
    upto: int,
)
    requires
        0 <= upto <= vs.len(),
    ensures
        exact_prefix(vs, upto) + exact_count(vs, upto) == exact_count(vs, 0),
    decreases upto,
{
    if upto > 0 {
        lemma_exact_split(vs, upto - 1);
    }
}

/// The packed-object count the iterator precomputes equals the exact packed
/// count whenever that count fits the machine word — independent of the
/// loose stores, which do not enter the computation at all.
pub proof fn lemma_size_hint_exact(
    vs: Seq<(Seq<u8>, HashKind, Seq<(Seq<u8>, u64, Option<u32>)>)>,
    upto: int,
)
    requires
        0 <= upto <= vs.len(),
        exact_prefix(vs, upto) <= usize::MAX,
    ensures
        packed_count_prefix(vs, upto) == exact_prefix(vs, upto),
        upto == vs.len() ==> packed_count_prefix(vs, upto) == exact_count(vs, 0),
    decreases upto,
{
    if upto > 0 {
        assert(view_oids(vs[upto - 1]).len() >= 0);
        lemma_size_hint_exact(vs, upto - 1);
    }
    lemma_exact_split(vs, upto);
    if upto == vs.len() {
        assert(exact_count(vs, upto) == 0);
    }
}

impl Handle {
    /// An iterator over all objects of this handle's store: packed objects
    /// with the best packs first, then loose objects.
    pub fn iter(&mut self) -> (r: Result<AllObjects, LoadIndexError>)
        requires
            old(self).store.wf(),
        ensures
            new_post(old(self).store, final(self).store, r),
    {
        AllObjects::new(&mut self.store)
    }
}

impl Store {
    /// Like [`Handle::iter`], but directly on the store.
    pub fn iter(&mut self) -> (r: Result<AllObjects, LoadIndexError>)
        requires
            old(self).wf(),
        ensures
            new_post(*old(self), *final(self), r),
    {
        AllObjects::new(self)
    }
}

} // verus!
