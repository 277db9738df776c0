//! Loose-object stores: each holds a finite sequence of object identifiers,
//! some of which may fail to read. The store's directory scanning itself is
//! the embedder's job; the store here holds its outcomes as plain values.

use vstd::prelude::*;

use crate::hash::ObjectId;

verus! {

/// A loose-store read failure for one item.
#[derive(Debug, PartialEq, Eq, Clone, Copy, Structural)]
pub enum Error {
    /// The underlying object file could not be read.
    Io,
}

/// One outcome of scanning a loose store: an identifier, or a read failure.
pub enum Item {
    /// A readable object's identifier.
    Id(ObjectId),
    /// An object file that could not be read.
    Unreadable,
}

/// What an item yields: the identifier's bytes, or nothing for a failure.
pub open spec fn item_view(it: Item) -> Option<Seq<u8>> {
    match it {
        Item::Id(id) => Some(id@),
        Item::Unreadable => None,
    }
}

/// What a yielded `Result` stands for, in the same terms as [`item_view`].
pub open spec fn result_view(r: Result<ObjectId, Error>) -> Option<Seq<u8>> {
    match r {
        Ok(id) => Some(id@),
        Err(_) => None,
    }
}

impl Item {
    /// An owned copy of this item.
    pub fn duplicate(&self) -> (r: Item)
        ensures
            item_view(r) == item_view(*self),
    {
        match self {
            Item::Id(id) => Item::Id(id.duplicate()),
            Item::Unreadable => Item::Unreadable,
        }
    }
}

/// One loose-object store.
pub struct Store {
    /// The store's items in scan order.
    pub entries: Vec<Item>,
}

impl Store {
    /// The sequence of outcomes this store produces.
    pub open spec fn view_items(self) -> Seq<Option<Seq<u8>>> {
        self.entries@.map(|i: int, it: Item| item_view(it))
    }

    /// An owned copy of this store.
    pub fn duplicate(&self) -> (r: Store)
        ensures
            r.view_items() == self.view_items(),
    {
        let n = self.entries.len();
        let mut entries: Vec<Item> = Vec::new();
        let mut j: usize = 0;
        while j < n
            invariant
                n == self.entries@.len(),
                0 <= j <= n,
                entries@.len() == j,
                forall|k: int|
                    0 <= k < j ==> item_view(#[trigger] entries@[k]) == item_view(
                        self.entries@[k],
                    ),
            decreases n - j,
        {
            entries.push(self.entries[j].duplicate());
            j = j + 1;
        }
        let r = Store { entries };
        proof {
            assert(r.view_items() =~= self.view_items());
        }
        r
    }

    /// A fresh iterator over this store's items.
    pub fn iter(&self) -> (r: Iter)
        ensures
            r.wf(),
            r.remaining() == self.view_items(),
    {
        let copy = self.duplicate();
        let r = Iter { entries: copy.entries, pos: 0 };
        proof {
            assert(r.entries@.skip(0) =~= r.entries@);
        }
        r
    }
}

/// A non-restartable iterator over one loose store's items.
pub struct Iter {
    /// The items being walked.
    pub entries: Vec<Item>,
    /// How many items were already yielded.
    pub pos: usize,
}

impl Iter {
    /// The cursor never passes the end.
    pub open spec fn wf(self) -> bool {
        self.pos <= self.entries@.len()
    }

    /// The outcomes this iterator has yet to yield.
    pub open spec fn remaining(self) -> Seq<Option<Seq<u8>>> {
        self.entries@.skip(self.pos as int).map(|i: int, it: Item| item_view(it))
    }

    /// Yields the next outcome, or `None` once the store is exhausted.
    pub fn next(&mut self) -> (r: Option<Result<ObjectId, Error>>)
        requires
            old(self).wf(),
        ensures
            final(self).wf(),
            match r {
                Some(item) => old(self).remaining().len() > 0 && result_view(item) == old(
                    self,
                ).remaining()[0] && final(self).remaining() == old(self).remaining().skip(1),
                None => old(self).remaining().len() == 0 && final(self).remaining() == old(
                    self,
                ).remaining(),
            },
    {
        if self.pos < self.entries.len() {
            let ghost before = self.remaining();
            let item = self.entries[self.pos].duplicate();
            self.pos = self.pos + 1;
            proof {
                assert(before[0] == item_view(self.entries@[old(self).pos as int]));
                assert(self.remaining() =~= before.skip(1));
            }
            match item {
                Item::Id(id) => Some(Ok(id)),
                Item::Unreadable => Some(Err(Error::Io)),
            }
        } else {
            None
        }
    }
}

} // verus!
