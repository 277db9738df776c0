//! Small verified helpers on byte slices: equality, copying, and substring
//! search (used by the legacy tree-mode tolerance rule of the entry verifier).

use vstd::prelude::*;

verus! {

/// The needle `n` occurs in `h` at position `i`.
pub open spec fn is_match_at(h: Seq<u8>, n: Seq<u8>, i: int) -> bool {
    0 <= i && i + n.len() <= h.len() && h.subrange(i, i + n.len()) == n
}

/// The needle `n` occurs somewhere in `h`.
pub open spec fn contains_seq(h: Seq<u8>, n: Seq<u8>) -> bool {
    exists|i: int| is_match_at(h, n, i)
}

/// Whether `hay[i..i + needle.len()]` equals `needle`.
fn match_at(hay: &[u8], needle: &[u8], i: usize) -> (r: bool)
    requires
        i + needle@.len() <= hay@.len(),
    ensures
        r == (hay@.subrange(i as int, i + needle@.len()) == needle@),
{
    let n = needle.len();
    let hlen = hay.len();
    let mut j: usize = 0;
    while j < n
        invariant
            n == needle@.len(),
            hlen == hay@.len(),
            i + n <= hlen,
            0 <= j <= n,
            forall|k: int| 0 <= k < j ==> hay@[i + k] == needle@[k],
        decreases n - j,
    {
        if hay[i + j] != needle[j] {
            proof {
                assert(hay@.subrange(i as int, i + needle@.len())[j as int] != needle@[j as int]);
            }
            return false;
        }
        j = j + 1;
    }
    proof {
        assert(hay@.subrange(i as int, i + needle@.len()) =~= needle@);
    }
    true
}

/// Whether `needle` occurs as a contiguous run of bytes anywhere in `hay`.
pub fn find_seq(hay: &[u8], needle: &[u8]) -> (r: bool)
    ensures
        r == contains_seq(hay@, needle@),
{
    let hn = hay.len();
    let nn = needle.len();
    if nn > hn {
        proof {
            assert(forall|i: int| !is_match_at(hay@, needle@, i));
        }
        return false;
    }
    if nn == 0 {
        proof {
            assert(hay@.subrange(0, 0) =~= needle@);
            assert(is_match_at(hay@, needle@, 0));
        }
        return true;
    }
    let last = hn - nn;
    let mut i: usize = 0;
    while i <= last
        invariant
            hn == hay@.len(),
            nn == needle@.len(),
            1 <= nn <= hn,
            last == hn - nn,
            0 <= i <= last + 1,
            forall|k: int| 0 <= k < i ==> !is_match_at(hay@, needle@, k),
        decreases last + 1 - i,
    {
        if match_at(hay, needle, i) {
            proof {
                assert(is_match_at(hay@, needle@, i as int));
            }
            return true;
        }
        i = i + 1;
    }
    proof {
        assert(forall|k: int| k > last ==> !is_match_at(hay@, needle@, k));
    }
    false
}

/// Whether two byte slices hold the same bytes.
pub fn eq_bytes(a: &[u8], b: &[u8]) -> (r: bool)
    ensures
        r == (a@ == b@),
{
    if a.len() != b.len() {
        return false;
    }
    let n = a.len();
    let mut j: usize = 0;
    while j < n
        invariant
            n == a@.len(),
            n == b@.len(),
            0 <= j <= n,
            forall|k: int| 0 <= k < j ==> a@[k] == b@[k],
        decreases n - j,
    {
        if a[j] != b[j] {
            return false;
        }
        j = j + 1;
    }
    proof {
        assert(a@ =~= b@);
    }
    true
}

/// The position of the first occurrence of `x` in `b`, if any.
pub open spec fn first_pos(b: Seq<u8>, x: u8) -> Option<int>
    decreases b.len(),
{
    if b.len() == 0 {
        None
    } else if b[0] == x {
        Some(0int)
    } else {
        match first_pos(b.skip(1), x) {
            None => None,
            Some(i) => Some(i + 1),
        }
    }
}

/// `first_pos` returns the least position holding `x`, or `None` when `x`
/// does not occur.
pub proof fn lemma_first_pos(b: Seq<u8>, x: u8)
    ensures
        match first_pos(b, x) {
            None => forall|k: int| 0 <= k < b.len() ==> b[k] != x,
            Some(i) => 0 <= i < b.len() && b[i] == x && (forall|k: int| 0 <= k < i ==> b[k] != x),
        },
    decreases b.len(),
{
    if b.len() != 0 && b[0] != x {
        lemma_first_pos(b.skip(1), x);
        assert(forall|k: int| 1 <= k < b.len() ==> b[k] == b.skip(1)[k - 1]);
    }
}

/// The least position holding `x` determines the value of `first_pos`.
pub proof fn lemma_first_pos_is(b: Seq<u8>, x: u8, i: int)
    requires
        0 <= i < b.len(),
        b[i] == x,
        forall|k: int| 0 <= k < i ==> b[k] != x,
    ensures
        first_pos(b, x) == Some(i),
{
    lemma_first_pos(b, x);
}

/// When `x` does not occur in `b`, `first_pos` is `None`.
pub proof fn lemma_first_pos_absent(b: Seq<u8>, x: u8)
    requires
        forall|k: int| 0 <= k < b.len() ==> b[k] != x,
    ensures
        first_pos(b, x) == None::<int>,
{
    lemma_first_pos(b, x);
}

/// The position of the first occurrence of `x` in `v` at or after `from`.
pub fn find_byte(v: &[u8], from: usize, x: u8) -> (r: Option<usize>)
    requires
        from <= v@.len(),
    ensures
        match r {
            Some(j) => from <= j < v@.len() && v@[j as int] == x && (forall|k: int|
                from <= k < j ==> v@[k] != x),
            None => forall|k: int| from <= k < v@.len() ==> v@[k] != x,
        },
{
    let n = v.len();
    let mut j: usize = from;
    while j < n
        invariant
            n == v@.len(),
            from <= j <= n,
            forall|k: int| from <= k < j ==> v@[k] != x,
        decreases n - j,
    {
        if v[j] == x {
            return Some(j);
        }
        j = j + 1;
    }
    None
}

/// An owned copy of a byte slice.
pub fn copy_bytes(v: &[u8]) -> (r: Vec<u8>)
    ensures
        r@ == v@,
{
    let n = v.len();
    let mut out: Vec<u8> = Vec::new();
    let mut j: usize = 0;
    while j < n
        invariant
            n == v@.len(),
            0 <= j <= n,
            out@ == v@.subrange(0, j as int),
        decreases n - j,
    {
        out.push(v[j]);
        proof {
            assert(out@ =~= v@.subrange(0, j + 1));
        }
        j = j + 1;
    }
    proof {
        assert(v@.subrange(0, n as int) =~= v@);
    }
    out
}

/// An owned copy of the first `n` bytes of `v`.
pub fn prefix_bytes(v: &[u8], n: usize) -> (r: Vec<u8>)
    requires
        n <= v@.len(),
    ensures
        r@ == v@.subrange(0, n as int),
{
    let mut out: Vec<u8> = Vec::new();
    let mut j: usize = 0;
    while j < n
        invariant
            n <= v@.len(),
            0 <= j <= n,
            out@ == v@.subrange(0, j as int),
        decreases n - j,
    {
        out.push(v[j]);
        proof {
            assert(out@ =~= v@.subrange(0, j + 1));
        }
        j = j + 1;
    }
    out
}

/// Appends all bytes of `s` to `out`.
pub fn append_bytes(out: &mut Vec<u8>, s: &[u8])
    ensures
        final(out)@ == old(out)@ + s@,
{
    let n = s.len();
    let mut j: usize = 0;
    while j < n
        invariant
            n == s@.len(),
            0 <= j <= n,
            out@ == old(out)@ + s@.subrange(0, j as int),
        decreases n - j,
    {
        out.push(s[j]);
        proof {
            assert(old(out)@ + s@.subrange(0, j + 1) =~= (old(out)@ + s@.subrange(0, j as int)).push(
                s@[j as int],
            ));
        }
        j = j + 1;
    }
    proof {
        assert(s@.subrange(0, n as int) =~= s@);
    }
}

} // verus!
