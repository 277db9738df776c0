//! The object domain model: kinds, structured tree/commit/tag objects, their
//! decoding from raw bytes and their canonical re-encoding.
//!
//! Trees are sequences of `mode SP filename NUL oid` records. Three
//! historical, non-canonical mode spellings are accepted on decode but
//! re-encode canonically (`100664` and `100640` as `100644`, `040000` as
//! `40000`), so re-encoding such a tree does not reproduce its input bytes.
//! Commits and tags are modelled as a structured
//! leading header (`tree`/`object` line holding a hex digest) followed by the
//! remaining bytes kept verbatim; their re-encoding is always lossless.

use vstd::prelude::*;

use crate::bytes::append_bytes;
use crate::bytes::copy_bytes;
use crate::bytes::eq_bytes;
use crate::bytes::find_byte;
use crate::bytes::first_pos;
use crate::bytes::lemma_first_pos_absent;
use crate::bytes::lemma_first_pos_is;
use crate::hash::ObjectId;
use crate::hash::DIGEST_LEN;

verus! {

/// The number of hex characters of one digest.
pub const HEX_LEN: usize = 40;

/// The kind of an object.
#[derive(Debug, PartialEq, Eq, Hash, Clone, Copy, Structural)]
pub enum Kind {
    /// Opaque bytes without further grammar.
    Blob,
    /// A sequence of named, mode-tagged references to other objects.
    Tree,
    /// A revision: a tree reference plus meta data.
    Commit,
    /// An annotated reference to another object.
    Tag,
}

/// A tree entry's file mode, as stored in a tree object.
#[derive(Debug, PartialEq, Eq, Hash, Clone, Copy, Structural)]
pub enum EntryMode {
    /// A directory, mode `40000`.
    Tree,
    /// A regular file, mode `100644`.
    Blob,
    /// An executable file, mode `100755`.
    BlobExecutable,
    /// A symbolic link, mode `120000`.
    Link,
    /// A submodule commit, mode `160000`.
    Commit,
    /// Legacy group-writable file, mode `100664`; canonicalized to `100644`.
    BlobGroupWritable,
    /// Legacy group-readable file, mode `100640`; canonicalized to `100644`.
    BlobGroupReadable,
    /// A directory with a zero-prefixed mode `040000`; canonicalized to
    /// `40000`. Unlike the legacy file modes, this spelling enjoys no
    /// tolerance during re-encoding checks.
    TreeLeadingZero,
}

/// Whether a mode is one of the legacy file-mode spellings that canonical
/// re-encoding replaces with `100644` and that the entry verifier tolerates.
pub open spec fn mode_is_legacy(m: EntryMode) -> bool {
    m == EntryMode::BlobGroupWritable || m == EntryMode::BlobGroupReadable
}

/// Whether a mode re-encodes differently than it was stored.
pub open spec fn mode_is_noncanonical(m: EntryMode) -> bool {
    mode_is_legacy(m) || m == EntryMode::TreeLeadingZero
}

/// The mode bytes exactly as they appear in a stored tree.
pub open spec fn mode_raw_bytes(m: EntryMode) -> Seq<u8> {
    match m {
        EntryMode::Tree => seq![52u8, 48u8, 48u8, 48u8, 48u8],
        EntryMode::Blob => seq![49u8, 48u8, 48u8, 54u8, 52u8, 52u8],
        EntryMode::BlobExecutable => seq![49u8, 48u8, 48u8, 55u8, 53u8, 53u8],
        EntryMode::Link => seq![49u8, 50u8, 48u8, 48u8, 48u8, 48u8],
        EntryMode::Commit => seq![49u8, 54u8, 48u8, 48u8, 48u8, 48u8],
        EntryMode::BlobGroupWritable => seq![49u8, 48u8, 48u8, 54u8, 54u8, 52u8],
        EntryMode::BlobGroupReadable => seq![49u8, 48u8, 48u8, 54u8, 52u8, 48u8],
        EntryMode::TreeLeadingZero => seq![48u8, 52u8, 48u8, 48u8, 48u8, 48u8],
    }
}

/// The mode bytes canonical re-encoding writes: legacy modes become `100644`.
pub open spec fn mode_canonical_bytes(m: EntryMode) -> Seq<u8> {
    if mode_is_legacy(m) {
        mode_raw_bytes(EntryMode::Blob)
    } else if m == EntryMode::TreeLeadingZero {
        mode_raw_bytes(EntryMode::Tree)
    } else {
        mode_raw_bytes(m)
    }
}

/// The mode encoded by the given bytes, if they are one of the accepted
/// spellings.
pub open spec fn spec_mode_of(b: Seq<u8>) -> Option<EntryMode> {
    if b == mode_raw_bytes(EntryMode::Tree) {
        Some(EntryMode::Tree)
    } else if b == mode_raw_bytes(EntryMode::Blob) {
        Some(EntryMode::Blob)
    } else if b == mode_raw_bytes(EntryMode::BlobExecutable) {
        Some(EntryMode::BlobExecutable)
    } else if b == mode_raw_bytes(EntryMode::Link) {
        Some(EntryMode::Link)
    } else if b == mode_raw_bytes(EntryMode::Commit) {
        Some(EntryMode::Commit)
    } else if b == mode_raw_bytes(EntryMode::BlobGroupWritable) {
        Some(EntryMode::BlobGroupWritable)
    } else if b == mode_raw_bytes(EntryMode::BlobGroupReadable) {
        Some(EntryMode::BlobGroupReadable)
    } else if b == mode_raw_bytes(EntryMode::TreeLeadingZero) {
        Some(EntryMode::TreeLeadingZero)
    } else {
        None
    }
}

/// The raw bytes of a mode, as an owned value.
pub fn mode_raw(m: EntryMode) -> (r: Vec<u8>)
    ensures
        r@ == mode_raw_bytes(m),
{
    let mut v: Vec<u8> = Vec::new();
    match m {
        EntryMode::Tree => {
            v.push(52);
            v.push(48);
            v.push(48);
            v.push(48);
            v.push(48);
        },
        EntryMode::Blob => {
            v.push(49);
            v.push(48);
            v.push(48);
            v.push(54);
            v.push(52);
            v.push(52);
        },
        EntryMode::BlobExecutable => {
            v.push(49);
            v.push(48);
            v.push(48);
            v.push(55);
            v.push(53);
            v.push(53);
        },
        EntryMode::Link => {
            v.push(49);
            v.push(50);
            v.push(48);
            v.push(48);
            v.push(48);
            v.push(48);
        },
        EntryMode::Commit => {
            v.push(49);
            v.push(54);
            v.push(48);
            v.push(48);
            v.push(48);
            v.push(48);
        },
        EntryMode::BlobGroupWritable => {
            v.push(49);
            v.push(48);
            v.push(48);
            v.push(54);
            v.push(54);
            v.push(52);
        },
        EntryMode::BlobGroupReadable => {
            v.push(49);
            v.push(48);
            v.push(48);
            v.push(54);
            v.push(52);
            v.push(48);
        },
        EntryMode::TreeLeadingZero => {
            v.push(48);
            v.push(52);
            v.push(48);
            v.push(48);
            v.push(48);
            v.push(48);
        },
    }
    proof {
        assert(v@ =~= mode_raw_bytes(m));
    }
    v
}

/// The canonical bytes of a mode, as an owned value.
pub fn mode_canonical(m: EntryMode) -> (r: Vec<u8>)
    ensures
        r@ == mode_canonical_bytes(m),
{
    match m {
        EntryMode::BlobGroupWritable => mode_raw(EntryMode::Blob),
        EntryMode::BlobGroupReadable => mode_raw(EntryMode::Blob),
        EntryMode::TreeLeadingZero => mode_raw(EntryMode::Tree),
        _ => mode_raw(m),
    }
}

/// The mode encoded by the given bytes, if any.
fn mode_from_bytes(b: &[u8]) -> (r: Option<EntryMode>)
    ensures
        r == spec_mode_of(b@),
{
    if eq_bytes(b, mode_raw(EntryMode::Tree).as_slice()) {
        Some(EntryMode::Tree)
    } else if eq_bytes(b, mode_raw(EntryMode::Blob).as_slice()) {
        Some(EntryMode::Blob)
    } else if eq_bytes(b, mode_raw(EntryMode::BlobExecutable).as_slice()) {
        Some(EntryMode::BlobExecutable)
    } else if eq_bytes(b, mode_raw(EntryMode::Link).as_slice()) {
        Some(EntryMode::Link)
    } else if eq_bytes(b, mode_raw(EntryMode::Commit).as_slice()) {
        Some(EntryMode::Commit)
    } else if eq_bytes(b, mode_raw(EntryMode::BlobGroupWritable).as_slice()) {
        Some(EntryMode::BlobGroupWritable)
    } else if eq_bytes(b, mode_raw(EntryMode::BlobGroupReadable).as_slice()) {
        Some(EntryMode::BlobGroupReadable)
    } else if eq_bytes(b, mode_raw(EntryMode::TreeLeadingZero).as_slice()) {
        Some(EntryMode::TreeLeadingZero)
    } else {
        None
    }
}

/// Decoding failed: the bytes do not follow the grammar of their kind.
#[derive(Debug, PartialEq, Eq, Clone, Copy, Structural)]
pub enum DecodeError {
    /// The bytes do not parse as the declared kind.
    Invalid,
}

/// The mathematical model of one tree entry.
pub struct TreeEntryModel {
    /// The entry's file mode.
    pub mode: EntryMode,
    /// The entry's name; never empty, never holding a zero byte.
    pub filename: Seq<u8>,
    /// The digest of the referenced object, one digest width wide.
    pub oid: Seq<u8>,
}

/// A well-formed tree entry model.
pub open spec fn entry_model_wf(e: TreeEntryModel) -> bool {
    &&& e.filename.len() >= 1
    &&& forall|k: int| 0 <= k < e.filename.len() ==> e.filename[k] != 0
    &&& e.oid.len() == DIGEST_LEN
}

/// One encoded tree entry: mode, space, name, zero byte, raw digest.
pub open spec fn entry_enc(e: TreeEntryModel, canonical: bool) -> Seq<u8> {
    (if canonical {
        mode_canonical_bytes(e.mode)
    } else {
        mode_raw_bytes(e.mode)
    }) + seq![32u8] + e.filename + seq![0u8] + e.oid
}

/// A whole encoded tree: its entries, one after the other.
pub open spec fn tree_enc(es: Seq<TreeEntryModel>, canonical: bool) -> Seq<u8>
    decreases es.len(),
{
    if es.len() == 0 {
        Seq::empty()
    } else {
        entry_enc(es[0], canonical) + tree_enc(es.skip(1), canonical)
    }
}

/// Parses one tree entry off the front of `s`, returning it and the rest.
pub open spec fn spec_parse_entry(s: Seq<u8>) -> Option<(TreeEntryModel, Seq<u8>)> {
    match first_pos(s, 32u8) {
        None => None,
        Some(sp) => match spec_mode_of(s.subrange(0, sp)) {
            None => None,
            Some(m) => {
                let after = s.skip(sp + 1);
                match first_pos(after, 0u8) {
                    None => None,
                    Some(nl) => if nl == 0 || after.len() < nl + 1 + DIGEST_LEN {
                        None
                    } else {
                        Some(
                            (
                                TreeEntryModel {
                                    mode: m,
                                    filename: after.subrange(0, nl),
                                    oid: after.subrange(nl + 1, nl + 1 + DIGEST_LEN),
                                },
                                after.skip(nl + 1 + DIGEST_LEN),
                            ),
                        )
                    },
                }
            },
        },
    }
}

/// Parses a whole tree: entries until the bytes are exhausted.
pub open spec fn spec_parse_tree(s: Seq<u8>) -> Option<Seq<TreeEntryModel>>
    decreases s.len(),
{
    if s.len() == 0 {
        Some(Seq::empty())
    } else {
        match spec_parse_entry(s) {
            None => None,
            Some((e, rest)) => if rest.len() < s.len() {
                match spec_parse_tree(rest) {
                    None => None,
                    Some(es) => Some(seq![e] + es),
                }
            } else {
                None
            },
        }
    }
}

/// A successful entry parse explains the input: the entry is well formed and
/// the input is exactly its raw encoding followed by the rest.
pub proof fn lemma_parse_entry_sound(s: Seq<u8>)
    ensures
        match spec_parse_entry(s) {
            Some((e, rest)) => entry_model_wf(e) && s == entry_enc(e, false) + rest && rest.len()
                < s.len(),
            None => true,
        },
{
    crate::bytes::lemma_first_pos(s, 32u8);
    match first_pos(s, 32u8) {
        None => {},
        Some(sp) => {
            match spec_mode_of(s.subrange(0, sp)) {
                None => {},
                Some(m) => {
                    let after = s.skip(sp + 1);
                    crate::bytes::lemma_first_pos(after, 0u8);
                    match first_pos(after, 0u8) {
                        None => {},
                        Some(nl) => {
                            if !(nl == 0 || after.len() < nl + 1 + DIGEST_LEN) {
                                let e = TreeEntryModel {
                                    mode: m,
                                    filename: after.subrange(0, nl),
                                    oid: after.subrange(nl + 1, nl + 1 + DIGEST_LEN),
                                };
                                let rest = after.skip(nl + 1 + DIGEST_LEN);
                                assert(s.subrange(0, sp) == mode_raw_bytes(m));
                                assert(after =~= e.filename + seq![0u8] + e.oid + rest);
                                assert(s =~= s.subrange(0, sp) + seq![32u8] + after);
                                assert(s =~= entry_enc(e, false) + rest);
                            }
                        },
                    }
                },
            }
        },
    }
}

/// A successful tree parse explains the input: every entry is well formed and
/// the input is exactly the raw encoding of the entries.
pub proof fn lemma_parse_tree_sound(s: Seq<u8>)
    ensures
        match spec_parse_tree(s) {
            Some(es) => (forall|i: int| 0 <= i < es.len() ==> entry_model_wf(es[i])) && s
                == tree_enc(es, false),
            None => true,
        },
    decreases s.len(),
{
    if s.len() == 0 {
        assert(tree_enc(Seq::<TreeEntryModel>::empty(), false) =~= s);
    } else {
        lemma_parse_entry_sound(s);
        match spec_parse_entry(s) {
            None => {},
            Some((e, rest)) => {
                if rest.len() < s.len() {
                    lemma_parse_tree_sound(rest);
                    match spec_parse_tree(rest) {
                        None => {},
                        Some(es) => {
                            let all = seq![e] + es;
                            assert(all[0] == e);
                            assert(all.skip(1) =~= es);
                            assert(s =~= entry_enc(e, false) + tree_enc(es, false));
                        },
                    }
                }
            },
        }
    }
}

/// For entries without a noncanonical mode, canonical and raw encodings
/// agree.
pub proof fn lemma_tree_enc_canonical(es: Seq<TreeEntryModel>)
    requires
        forall|i: int| 0 <= i < es.len() ==> !mode_is_noncanonical(#[trigger] es[i].mode),
    ensures
        tree_enc(es, true) == tree_enc(es, false),
    decreases es.len(),
{
    if es.len() != 0 {
        assert(!mode_is_noncanonical(es[0].mode));
        assert(forall|i: int|
            0 <= i < es.skip(1).len() ==> !mode_is_noncanonical(#[trigger] es.skip(1)[i].mode));
        lemma_tree_enc_canonical(es.skip(1));
    }
}

/// Appending one entry to a tree appends its encoding.
pub proof fn lemma_tree_enc_snoc(es: Seq<TreeEntryModel>, e: TreeEntryModel, canonical: bool)
    ensures
        tree_enc(es.push(e), canonical) == tree_enc(es, canonical) + entry_enc(e, canonical),
    decreases es.len(),
{
    if es.len() == 0 {
        assert(es.push(e)[0] == e);
        assert(es.push(e).skip(1) =~= Seq::<TreeEntryModel>::empty());
        assert(tree_enc(es.push(e).skip(1), canonical) == Seq::<u8>::empty());
        assert(tree_enc(es.push(e), canonical) == entry_enc(e, canonical) + Seq::<u8>::empty());
        assert(entry_enc(e, canonical) + Seq::<u8>::empty() =~= entry_enc(e, canonical));
        assert(tree_enc(es, canonical) + entry_enc(e, canonical) =~= entry_enc(e, canonical));
    } else {
        assert(es.push(e)[0] == es[0]);
        assert(es.push(e).skip(1) =~= es.skip(1).push(e));
        lemma_tree_enc_snoc(es.skip(1), e, canonical);
        assert(entry_enc(es[0], canonical) + (tree_enc(es.skip(1), canonical) + entry_enc(
            e,
            canonical,
        )) =~= (entry_enc(es[0], canonical) + tree_enc(es.skip(1), canonical)) + entry_enc(
            e,
            canonical,
        ));
    }
}

/// A needle occurring in the right part of a concatenation occurs in the
/// whole.
pub proof fn lemma_contains_append_left(a: Seq<u8>, b: Seq<u8>, n: Seq<u8>)
    requires
        crate::bytes::contains_seq(b, n),
    ensures
        crate::bytes::contains_seq(a + b, n),
{
    let q = choose|q: int| crate::bytes::is_match_at(b, n, q);
    assert((a + b).subrange(a.len() + q, a.len() + q + n.len()) =~= b.subrange(q, q + n.len()));
    assert(crate::bytes::is_match_at(a + b, n, a.len() + q));
}

/// Canonicalizing never grows a tree's encoding, and shrinks it exactly when
/// a zero-prefixed directory mode occurs.
pub proof fn lemma_tree_enc_lens(es: Seq<TreeEntryModel>)
    ensures
        tree_enc(es, true).len() <= tree_enc(es, false).len(),
        (exists|j: int|
            0 <= j < es.len() && (#[trigger] es[j].mode) == EntryMode::TreeLeadingZero)
            ==> tree_enc(es, true).len() < tree_enc(es, false).len(),
    decreases es.len(),
{
    if es.len() != 0 {
        lemma_tree_enc_lens(es.skip(1));
        assert(entry_enc(es[0], true).len() <= entry_enc(es[0], false).len());
        if exists|j: int|
            0 <= j < es.len() && (#[trigger] es[j].mode) == EntryMode::TreeLeadingZero {
            let j = choose|j: int|
                0 <= j < es.len() && (#[trigger] es[j].mode) == EntryMode::TreeLeadingZero;
            if j == 0 {
                assert(entry_enc(es[0], true).len() < entry_enc(es[0], false).len());
            } else {
                assert(es.skip(1)[j - 1] == es[j]);
                assert(exists|t: int|
                    0 <= t < es.skip(1).len() && (#[trigger] es.skip(1)[t].mode)
                        == EntryMode::TreeLeadingZero);
            }
        }
    }
}

/// A tree holding a legacy mode re-encodes differently: its canonical and
/// raw encodings are distinct.
pub proof fn lemma_legacy_enc_differs(es: Seq<TreeEntryModel>, i: int)
    requires
        0 <= i < es.len(),
        mode_is_legacy(es[i].mode),
    ensures
        tree_enc(es, true) != tree_enc(es, false),
    decreases i,
{
    if exists|j: int|
        0 <= j < es.len() && (#[trigger] es[j].mode) == EntryMode::TreeLeadingZero {
        lemma_tree_enc_lens(es);
    } else if mode_is_legacy(es[0].mode) {
        let p: int = if es[0].mode == EntryMode::BlobGroupWritable {
            4
        } else {
            5
        };
        assert(mode_canonical_bytes(es[0].mode)[p] != mode_raw_bytes(es[0].mode)[p]);
        assert(entry_enc(es[0], true)[p] == mode_canonical_bytes(es[0].mode)[p]);
        assert(entry_enc(es[0], false)[p] == mode_raw_bytes(es[0].mode)[p]);
        assert(tree_enc(es, true)[p] == entry_enc(es[0], true)[p]);
        assert(tree_enc(es, false)[p] == entry_enc(es[0], false)[p]);
    } else {
        assert(i > 0);
        assert(es.skip(1)[i - 1] == es[i]);
        lemma_legacy_enc_differs(es.skip(1), i - 1);
        let e = entry_enc(es[0], true);
        assert(entry_enc(es[0], false) == e);
        if tree_enc(es, true) == tree_enc(es, false) {
            assert((e + tree_enc(es.skip(1), true)).skip(e.len() as int) =~= tree_enc(
                es.skip(1),
                true,
            ));
            assert((e + tree_enc(es.skip(1), false)).skip(e.len() as int) =~= tree_enc(
                es.skip(1),
                false,
            ));
            assert(false);
        }
    }
}

/// The raw encoding of a tree holding a legacy mode contains that mode's
/// bytes literally.
pub proof fn lemma_legacy_enc_contains(es: Seq<TreeEntryModel>, i: int)
    requires
        0 <= i < es.len(),
        mode_is_legacy(es[i].mode),
    ensures
        crate::bytes::contains_seq(tree_enc(es, false), mode_raw_bytes(es[i].mode)),
    decreases i,
{
    if i == 0 {
        let n = mode_raw_bytes(es[0].mode);
        assert(tree_enc(es, false).subrange(0, n.len() as int) =~= n);
        assert(crate::bytes::is_match_at(tree_enc(es, false), n, 0));
    } else {
        assert(es.skip(1)[i - 1] == es[i]);
        lemma_legacy_enc_contains(es.skip(1), i - 1);
        lemma_contains_append_left(
            entry_enc(es[0], false),
            tree_enc(es.skip(1), false),
            mode_raw_bytes(es[i].mode),
        );
    }
}

/// One entry of a stored tree.
pub struct TreeEntry {
    /// The entry's file mode.
    pub mode: EntryMode,
    /// The entry's name.
    pub filename: Vec<u8>,
    /// The digest of the referenced object.
    pub oid: ObjectId,
}

impl TreeEntry {
    /// The entry's mathematical model.
    pub open spec fn model(self) -> TreeEntryModel {
        TreeEntryModel { mode: self.mode, filename: self.filename@, oid: self.oid@ }
    }
}

/// A decoded tree object.
pub struct Tree {
    /// The tree's entries, in stored order.
    pub entries: Vec<TreeEntry>,
}

impl Tree {
    /// The tree's mathematical model.
    pub open spec fn model(self) -> Seq<TreeEntryModel> {
        self.entries@.map(|i: int, e: TreeEntry| e.model())
    }
}

/// Prepends already-parsed entries to the outcome of parsing the rest.
pub open spec fn opt_prepend(pre: Seq<TreeEntryModel>, o: Option<Seq<TreeEntryModel>>) -> Option<
    Seq<TreeEntryModel>,
> {
    match o {
        None => None,
        Some(es) => Some(pre + es),
    }
}

/// Decodes a tree object; succeeds exactly when the bytes follow the tree
/// grammar.
pub fn decode_tree(buf: &[u8]) -> (r: Result<Tree, DecodeError>)
    ensures
        match r {
            Ok(t) => spec_parse_tree(buf@) == Some(t.model()),
            Err(_) => spec_parse_tree(buf@) is None,
        },
{
    let len = buf.len();
    let mut entries: Vec<TreeEntry> = Vec::new();
    let mut pos: usize = 0;
    proof {
        assert(buf@.skip(0) =~= buf@);
        assert(entries@.map(|i: int, e: TreeEntry| e.model()) =~= Seq::<TreeEntryModel>::empty());
        match spec_parse_tree(buf@) {
            None => {},
            Some(es) => {
                assert(Seq::<TreeEntryModel>::empty() + es =~= es);
            },
        }
    }
    loop
        invariant
            len == buf@.len(),
            pos <= len,
            spec_parse_tree(buf@) == opt_prepend(
                entries@.map(|i: int, e: TreeEntry| e.model()),
                spec_parse_tree(buf@.skip(pos as int)),
            ),
        decreases len - pos,
    {
        let ghost s = buf@.skip(pos as int);
        let ghost models = entries@.map(|i: int, e: TreeEntry| e.model());
        if pos == len {
            proof {
                assert(s =~= Seq::<u8>::empty());
                assert(models + Seq::<TreeEntryModel>::empty() =~= models);
            }
            return Ok(Tree { entries });
        }
        let sp = match find_byte(buf, pos, 32) {
            Some(j) => j,
            None => {
                proof {
                    lemma_first_pos_absent(s, 32u8);
                }
                return Err(DecodeError::Invalid);
            },
        };
        proof {
            lemma_first_pos_is(s, 32u8, sp - pos);
        }
        let m = match mode_from_bytes(&buf[pos..sp]) {
            Some(m) => m,
            None => {
                proof {
                    assert(s.subrange(0, sp - pos) =~= buf@.subrange(pos as int, sp as int));
                }
                return Err(DecodeError::Invalid);
            },
        };
        proof {
            assert(s.subrange(0, sp - pos) =~= buf@.subrange(pos as int, sp as int));
        }
        let ghost after = s.skip(sp - pos + 1);
        proof {
            assert(after =~= buf@.skip(sp + 1));
        }
        let nl = match find_byte(buf, sp + 1, 0) {
            Some(j) => j,
            None => {
                proof {
                    lemma_first_pos_absent(after, 0u8);
                }
                return Err(DecodeError::Invalid);
            },
        };
        proof {
            lemma_first_pos_is(after, 0u8, nl - sp - 1);
        }
        if nl == sp + 1 {
            return Err(DecodeError::Invalid);
        }
        if len - nl - 1 < DIGEST_LEN {
            return Err(DecodeError::Invalid);
        }
        let filename = copy_bytes(&buf[sp + 1..nl]);
        let oid = ObjectId::from_bytes(&buf[nl + 1..nl + 1 + DIGEST_LEN]);
        let entry = TreeEntry { mode: m, filename, oid };
        proof {
            let nlrel = nl - sp - 1;
            let emodel = TreeEntryModel {
                mode: m,
                filename: after.subrange(0, nlrel),
                oid: after.subrange(nlrel + 1, nlrel + 1 + DIGEST_LEN),
            };
            let rest = after.skip(nlrel + 1 + DIGEST_LEN);
            assert(spec_parse_entry(s) == Some((emodel, rest)));
            assert(emodel.filename =~= buf@.subrange(sp + 1, nl as int));
            assert(emodel.oid =~= buf@.subrange(nl + 1, nl + 1 + DIGEST_LEN));
            assert(entry.model() == emodel);
            assert(rest =~= buf@.skip(nl + 1 + DIGEST_LEN));
            assert(rest.len() < s.len());
            assert(spec_parse_tree(s) == opt_prepend(seq![emodel], spec_parse_tree(rest)));
            let new_models = entries@.push(entry).map(|i: int, e: TreeEntry| e.model());
            assert(new_models =~= models + seq![emodel]);
            match spec_parse_tree(rest) {
                None => {},
                Some(es) => {
                    assert(models + (seq![emodel] + es) =~= (models + seq![emodel]) + es);
                },
            }
        }
        entries.push(entry);
        pos = nl + 1 + DIGEST_LEN;
    }
}

/// The mathematical model of a commit object.
pub struct CommitModel {
    /// The referenced tree's digest, as hex characters.
    pub tree_hex: Seq<u8>,
    /// Everything after the tree line, kept verbatim.
    pub rest: Seq<u8>,
}

/// The mathematical model of a tag object.
pub struct TagModel {
    /// The referenced object's digest, as hex characters.
    pub target_hex: Seq<u8>,
    /// Everything after the object line, kept verbatim.
    pub rest: Seq<u8>,
}

/// Whether `c` is a lowercase hex character.
pub open spec fn is_hex_digit(c: u8) -> bool {
    (48 <= c <= 57) || (97 <= c <= 102)
}

/// The bytes `tree ` that open a commit object.
pub open spec fn commit_prefix() -> Seq<u8> {
    seq![116u8, 114u8, 101u8, 101u8, 32u8]
}

/// The bytes `object ` that open a tag object.
pub open spec fn tag_prefix() -> Seq<u8> {
    seq![111u8, 98u8, 106u8, 101u8, 99u8, 116u8, 32u8]
}

/// The encoding of a commit: `tree `, hex digest, newline, the rest.
pub open spec fn commit_enc(c: CommitModel) -> Seq<u8> {
    commit_prefix() + c.tree_hex + seq![10u8] + c.rest
}

/// The encoding of a tag: `object `, hex digest, newline, the rest.
pub open spec fn tag_enc(t: TagModel) -> Seq<u8> {
    tag_prefix() + t.target_hex + seq![10u8] + t.rest
}

/// Parses a commit: a `tree` line holding a well-formed hex digest.
pub open spec fn spec_parse_commit(s: Seq<u8>) -> Option<CommitModel> {
    if s.len() >= 46 && s.subrange(0, 5) == commit_prefix() && (forall|k: int|
        5 <= k < 45 ==> is_hex_digit(s[k])) && s[45] == 10u8 {
        Some(CommitModel { tree_hex: s.subrange(5, 45), rest: s.skip(46) })
    } else {
        None
    }
}

/// Parses a tag: an `object` line holding a well-formed hex digest.
pub open spec fn spec_parse_tag(s: Seq<u8>) -> Option<TagModel> {
    if s.len() >= 48 && s.subrange(0, 7) == tag_prefix() && (forall|k: int|
        7 <= k < 47 ==> is_hex_digit(s[k])) && s[47] == 10u8 {
        Some(TagModel { target_hex: s.subrange(7, 47), rest: s.skip(48) })
    } else {
        None
    }
}

/// A successful commit parse explains the input exactly.
pub proof fn lemma_parse_commit_sound(s: Seq<u8>)
    ensures
        match spec_parse_commit(s) {
            Some(c) => s == commit_enc(c) && c.tree_hex.len() == HEX_LEN,
            None => true,
        },
{
    match spec_parse_commit(s) {
        None => {},
        Some(c) => {
            assert(s =~= commit_prefix() + s.subrange(5, 45) + seq![10u8] + s.skip(46));
        },
    }
}

/// A successful tag parse explains the input exactly.
pub proof fn lemma_parse_tag_sound(s: Seq<u8>)
    ensures
        match spec_parse_tag(s) {
            Some(t) => s == tag_enc(t) && t.target_hex.len() == HEX_LEN,
            None => true,
        },
{
    match spec_parse_tag(s) {
        None => {},
        Some(t) => {
            assert(s =~= tag_prefix() + s.subrange(7, 47) + seq![10u8] + s.skip(48));
        },
    }
}

/// A decoded commit object.
pub struct Commit {
    /// The referenced tree's digest, as hex characters.
    pub tree_hex: Vec<u8>,
    /// Everything after the tree line, kept verbatim.
    pub rest: Vec<u8>,
}

impl Commit {
    /// The commit's mathematical model.
    pub open spec fn model(self) -> CommitModel {
        CommitModel { tree_hex: self.tree_hex@, rest: self.rest@ }
    }
}

/// A decoded tag object.
pub struct Tag {
    /// The referenced object's digest, as hex characters.
    pub target_hex: Vec<u8>,
    /// Everything after the object line, kept verbatim.
    pub rest: Vec<u8>,
}

impl Tag {
    /// The tag's mathematical model.
    pub open spec fn model(self) -> TagModel {
        TagModel { target_hex: self.target_hex@, rest: self.rest@ }
    }
}

/// Whether `c` is a lowercase hex character.
fn hex_digit(c: u8) -> (r: bool)
    ensures
        r == is_hex_digit(c),
{
    (48 <= c && c <= 57) || (97 <= c && c <= 102)
}

/// The bytes `tree `, as an owned value.
fn commit_prefix_vec() -> (r: Vec<u8>)
    ensures
        r@ == commit_prefix(),
{
    let mut v: Vec<u8> = Vec::new();
    v.push(116);
    v.push(114);
    v.push(101);
    v.push(101);
    v.push(32);
    proof {
        assert(v@ =~= commit_prefix());
    }
    v
}

/// The bytes `object `, as an owned value.
fn tag_prefix_vec() -> (r: Vec<u8>)
    ensures
        r@ == tag_prefix(),
{
    let mut v: Vec<u8> = Vec::new();
    v.push(111);
    v.push(98);
    v.push(106);
    v.push(101);
    v.push(99);
    v.push(116);
    v.push(32);
    proof {
        assert(v@ =~= tag_prefix());
    }
    v
}

/// Checks that `buf[from..to]` holds hex characters only.
fn all_hex(buf: &[u8], from: usize, to: usize) -> (r: bool)
    requires
        from <= to <= buf@.len(),
    ensures
        r == (forall|k: int| from <= k < to ==> is_hex_digit(buf@[k])),
{
    let mut j: usize = from;
    while j < to
        invariant
            from <= j <= to <= buf@.len(),
            forall|k: int| from <= k < j ==> is_hex_digit(buf@[k]),
        decreases to - j,
    {
        if !hex_digit(buf[j]) {
            return false;
        }
        j = j + 1;
    }
    true
}

/// Decodes a commit object; succeeds exactly when the bytes open with a
/// well-formed `tree` line.
pub fn decode_commit(buf: &[u8]) -> (r: Result<Commit, DecodeError>)
    ensures
        match r {
            Ok(c) => spec_parse_commit(buf@) == Some(c.model()),
            Err(_) => spec_parse_commit(buf@) is None,
        },
{
    if buf.len() < 46 {
        return Err(DecodeError::Invalid);
    }
    if !eq_bytes(&buf[0..5], commit_prefix_vec().as_slice()) {
        return Err(DecodeError::Invalid);
    }
    if !all_hex(buf, 5, 45) {
        return Err(DecodeError::Invalid);
    }
    if buf[45] != 10 {
        return Err(DecodeError::Invalid);
    }
    let tree_hex = copy_bytes(&buf[5..45]);
    let rest = copy_bytes(&buf[46..buf.len()]);
    proof {
        assert(rest@ =~= buf@.skip(46));
    }
    Ok(Commit { tree_hex, rest })
}

/// Decodes a tag object; succeeds exactly when the bytes open with a
/// well-formed `object` line.
pub fn decode_tag(buf: &[u8]) -> (r: Result<Tag, DecodeError>)
    ensures
        match r {
            Ok(t) => spec_parse_tag(buf@) == Some(t.model()),
            Err(_) => spec_parse_tag(buf@) is None,
        },
{
    if buf.len() < 48 {
        return Err(DecodeError::Invalid);
    }
    if !eq_bytes(&buf[0..7], tag_prefix_vec().as_slice()) {
        return Err(DecodeError::Invalid);
    }
    if !all_hex(buf, 7, 47) {
        return Err(DecodeError::Invalid);
    }
    if buf[47] != 10 {
        return Err(DecodeError::Invalid);
    }
    let target_hex = copy_bytes(&buf[7..47]);
    let rest = copy_bytes(&buf[48..buf.len()]);
    proof {
        assert(rest@ =~= buf@.skip(48));
    }
    Ok(Tag { target_hex, rest })
}

/// The mathematical model of any object.
pub enum ObjectModel {
    /// Opaque bytes.
    Blob(Seq<u8>),
    /// A tree's entries.
    Tree(Seq<TreeEntryModel>),
    /// A commit.
    Commit(CommitModel),
    /// A tag.
    Tag(TagModel),
}

/// Parses bytes as an object of the given kind.
pub open spec fn spec_decode(kind: Kind, b: Seq<u8>) -> Option<ObjectModel> {
    match kind {
        Kind::Blob => Some(ObjectModel::Blob(b)),
        Kind::Tree => match spec_parse_tree(b) {
            None => None,
            Some(es) => Some(ObjectModel::Tree(es)),
        },
        Kind::Commit => match spec_parse_commit(b) {
            None => None,
            Some(c) => Some(ObjectModel::Commit(c)),
        },
        Kind::Tag => match spec_parse_tag(b) {
            None => None,
            Some(t) => Some(ObjectModel::Tag(t)),
        },
    }
}

/// The canonical encoding of an object model.
pub open spec fn obj_enc(m: ObjectModel) -> Seq<u8> {
    match m {
        ObjectModel::Blob(b) => b,
        ObjectModel::Tree(es) => tree_enc(es, true),
        ObjectModel::Commit(c) => commit_enc(c),
        ObjectModel::Tag(t) => tag_enc(t),
    }
}

/// Whether an object model holds a noncanonical tree mode anywhere.
pub open spec fn model_has_noncanonical_mode(m: ObjectModel) -> bool {
    match m {
        ObjectModel::Tree(es) => exists|i: int|
            0 <= i < es.len() && mode_is_noncanonical(#[trigger] es[i].mode),
        _ => false,
    }
}

/// Round trip: decoding an object free of noncanonical tree modes and
/// re-encoding it canonically reproduces the input bytes exactly.
pub proof fn lemma_object_round_trip(kind: Kind, b: Seq<u8>)
    requires
        spec_decode(kind, b) is Some,
        !model_has_noncanonical_mode(spec_decode(kind, b)->Some_0),
    ensures
        obj_enc(spec_decode(kind, b)->Some_0) == b,
{
    match kind {
        Kind::Blob => {},
        Kind::Tree => {
            lemma_parse_tree_sound(b);
            match spec_parse_tree(b) {
                None => {},
                Some(es) => {
                    lemma_tree_enc_canonical(es);
                },
            }
        },
        Kind::Commit => {
            lemma_parse_commit_sound(b);
        },
        Kind::Tag => {
            lemma_parse_tag_sound(b);
        },
    }
}

/// A decoded object of any kind.
pub enum Object {
    /// Opaque bytes.
    Blob(Vec<u8>),
    /// A tree.
    Tree(Tree),
    /// A commit.
    Commit(Commit),
    /// A tag.
    Tag(Tag),
}

impl Object {
    /// The object's mathematical model.
    pub open spec fn model(self) -> ObjectModel {
        match self {
            Object::Blob(b) => ObjectModel::Blob(b@),
            Object::Tree(t) => ObjectModel::Tree(t.model()),
            Object::Commit(c) => ObjectModel::Commit(c.model()),
            Object::Tag(t) => ObjectModel::Tag(t.model()),
        }
    }

    /// Decodes bytes as an object of the given kind; succeeds exactly when
    /// the bytes follow that kind's grammar.
    pub fn from_bytes(kind: Kind, buf: &[u8]) -> (r: Result<Object, DecodeError>)
        ensures
            match r {
                Ok(o) => spec_decode(kind, buf@) == Some(o.model()),
                Err(_) => spec_decode(kind, buf@) is None,
            },
    {
        match kind {
            Kind::Blob => Ok(Object::Blob(copy_bytes(buf))),
            Kind::Tree => match decode_tree(buf) {
                Ok(t) => Ok(Object::Tree(t)),
                Err(e) => Err(e),
            },
            Kind::Commit => match decode_commit(buf) {
                Ok(c) => Ok(Object::Commit(c)),
                Err(e) => Err(e),
            },
            Kind::Tag => match decode_tag(buf) {
                Ok(t) => Ok(Object::Tag(t)),
                Err(e) => Err(e),
            },
        }
    }

    /// Appends the canonical encoding of this object to `out`.
    pub fn write_to(&self, out: &mut Vec<u8>)
        ensures
            final(out)@ == old(out)@ + obj_enc(self.model()),
    {
        match self {
            Object::Blob(b) => {
                append_bytes(out, b.as_slice());
            },
            Object::Tree(t) => {
                let n = t.entries.len();
                let mut i: usize = 0;
                while i < n
                    invariant
                        n == t.entries@.len(),
                        0 <= i <= n,
                        out@ == old(out)@ + tree_enc(t.model().take(i as int), true),
                    decreases n - i,
                {
                    let entry = &t.entries[i];
                    let mode_bytes = mode_canonical(entry.mode);
                    append_bytes(out, mode_bytes.as_slice());
                    out.push(32);
                    append_bytes(out, entry.filename.as_slice());
                    out.push(0);
                    append_bytes(out, entry.oid.as_slice());
                    proof {
                        let models = t.model();
                        lemma_tree_enc_snoc(models.take(i as int), models[i as int], true);
                        assert(models.take(i as int).push(models[i as int]) =~= models.take(i + 1));
                        assert(out@ =~= old(out)@ + tree_enc(models.take(i as int), true)
                            + entry_enc(models[i as int], true));
                    }
                    i = i + 1;
                }
                proof {
                    assert(t.model().take(n as int) =~= t.model());
                }
            },
            Object::Commit(c) => {
                append_bytes(out, commit_prefix_vec().as_slice());
                append_bytes(out, c.tree_hex.as_slice());
                out.push(10);
                append_bytes(out, c.rest.as_slice());
                proof {
                    assert(out@ =~= old(out)@ + commit_enc(c.model()));
                }
            },
            Object::Tag(t) => {
                append_bytes(out, tag_prefix_vec().as_slice());
                append_bytes(out, t.target_hex.as_slice());
                out.push(10);
                append_bytes(out, t.rest.as_slice());
                proof {
                    assert(out@ =~= old(out)@ + tag_enc(t.model()));
                }
            },
        }
    }
}

} // verus!
