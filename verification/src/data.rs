//! Pack data files, seen through their contract: for a pack offset, the
//! stored entry bytes, the decompressed object bytes and the object's kind.
//! The file ends with a digest over its contents, kept here as a value.

use vstd::prelude::*;

use crate::bytes::copy_bytes;
use crate::hash::ObjectId;
use crate::object::Kind;

verus! {

/// One object of a pack data file.
pub struct PackObject {
    /// Where the object's entry sits in the pack.
    pub pack_offset: u64,
    /// The object's kind.
    pub kind: Kind,
    /// The entry's stored bytes (what the pack's CRC32 values cover).
    pub entry_bytes: Vec<u8>,
    /// The object's decompressed content bytes.
    pub data: Vec<u8>,
}

/// The mathematical content of one pack object.
pub open spec fn object_view(o: PackObject) -> (u64, Kind, Seq<u8>, Seq<u8>) {
    (o.pack_offset, o.kind, o.entry_bytes@, o.data@)
}

/// Whether some object sits at the given offset.
pub open spec fn has_offset(objs: Seq<PackObject>, off: u64) -> bool {
    exists|j: int| 0 <= j < objs.len() && (#[trigger] objs[j]).pack_offset == off
}

/// The object at the given offset (meaningful when offsets are distinct).
pub open spec fn obj_at(objs: Seq<PackObject>, off: u64) -> PackObject
    recommends
        has_offset(objs, off),
{
    objs[choose|j: int| 0 <= j < objs.len() && (#[trigger] objs[j]).pack_offset == off]
}

/// One pack data file.
pub struct File {
    /// The pack's objects; offsets are pairwise distinct.
    pub objects: Vec<PackObject>,
    /// The digest over the pack file's contents, stored at its end.
    pub checksum: ObjectId,
}

impl File {
    /// A well-formed pack: offsets are pairwise distinct and the trailing
    /// digest is one digest wide.
    pub open spec fn wf(self) -> bool {
        &&& forall|i: int, j: int|
            0 <= i < j < self.objects@.len() ==> (#[trigger] self.objects@[i]).pack_offset != (
            #[trigger] self.objects@[j]).pack_offset
        &&& self.checksum.wf()
    }

    /// The digest stored at the end of this pack data file.
    pub fn checksum(&self) -> (r: ObjectId)
        ensures
            r@ == self.checksum@,
    {
        self.checksum.duplicate()
    }

    /// Finds the position of the object at the given offset, if any.
    pub fn find_offset(&self, off: u64) -> (r: Option<usize>)
        ensures
            match r {
                Some(j) => j < self.objects@.len() && self.objects@[j as int].pack_offset == off,
                None => !has_offset(self.objects@, off),
            },
    {
        let n = self.objects.len();
        let mut j: usize = 0;
        while j < n
            invariant
                n == self.objects@.len(),
                0 <= j <= n,
                forall|k: int| 0 <= k < j ==> (#[trigger] self.objects@[k]).pack_offset != off,
            decreases n - j,
        {
            if self.objects[j].pack_offset == off {
                return Some(j);
            }
            j = j + 1;
        }
        None
    }

    /// An owned copy of the decompressed bytes of the object at position `j`.
    pub fn object_data(&self, j: usize) -> (r: Vec<u8>)
        requires
            j < self.objects@.len(),
        ensures
            r@ == self.objects@[j as int].data@,
    {
        copy_bytes(self.objects[j].data.as_slice())
    }
}

/// With pairwise distinct offsets, a found position holds exactly the object
/// `obj_at` names.
pub proof fn lemma_obj_at_found(objs: Seq<PackObject>, off: u64, j: int)
    requires
        forall|a: int, b: int|
            0 <= a < b < objs.len() ==> (#[trigger] objs[a]).pack_offset != (
            #[trigger] objs[b]).pack_offset,
        0 <= j < objs.len(),
        objs[j].pack_offset == off,
    ensures
        has_offset(objs, off),
        obj_at(objs, off) == objs[j],
{
    assert(has_offset(objs, off));
    let k = choose|k: int| 0 <= k < objs.len() && (#[trigger] objs[k]).pack_offset == off;
    if k != j {
        if k < j {
            assert(objs[k].pack_offset != objs[j].pack_offset);
        } else {
            assert(objs[j].pack_offset != objs[k].pack_offset);
        }
    }
}

} // verus!
