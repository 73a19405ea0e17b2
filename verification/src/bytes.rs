//! Byte-string utilities shared by the codec and the cache: equality,
//! subrange extraction, and splitting a canonical path into its parent
//! directory and file name.

use vstd::prelude::*;

verus! {

/// Path separator accepted in canonical paths: `/`.
pub const SEP_SLASH: u8 = 47;

/// Path separator accepted in canonical paths: `\`.
pub const SEP_BACKSLASH: u8 = 92;

pub open spec fn is_sep(b: u8) -> bool {
    b == SEP_SLASH || b == SEP_BACKSLASH
}

/// Index at which the file-name part of a path begins: one past the last
/// separator, or 0 when the path holds no separator.
pub open spec fn base_start(p: Seq<u8>) -> nat
    decreases p.len(),
{
    if p.len() == 0 {
        0
    } else if is_sep(p.last()) {
        p.len()
    } else {
        base_start(p.drop_last())
    }
}

/// The parent-directory part of a path: everything before the last separator.
pub open spec fn dir_of(p: Seq<u8>) -> Seq<u8> {
    if base_start(p) == 0 {
        Seq::empty()
    } else {
        p.take(base_start(p) - 1)
    }
}

/// The file-name part of a path: everything after the last separator.
pub open spec fn base_of(p: Seq<u8>) -> Seq<u8> {
    p.skip(base_start(p) as int)
}

/// `base_start` is exactly the cut that an end-to-front separator scan finds:
/// no separator at or after the cut, and a separator right before it (unless
/// the cut is at the front).
proof fn lemma_base_start_at(p: Seq<u8>, k: int)
    requires
        0 <= k <= p.len(),
        forall|j: int| k <= j < p.len() ==> !is_sep(p[j]),
        k > 0 ==> is_sep(p[k - 1]),
    ensures
        base_start(p) == k,
    decreases p.len(),
{
    if p.len() == 0 {
    } else if is_sep(p.last()) {
        assert(k == p.len());
    } else {
        assert(k < p.len());
        lemma_base_start_at(p.drop_last(), k);
    }
}

/// Byte-wise equality of two slices, decided exactly.
pub fn bytes_eq(a: &[u8], b: &[u8]) -> (r: bool)
    ensures
        r == (a@ == b@),
{
    if a.len() != b.len() {
        assert(a@ != b@);
        return false;
    }
    let n: usize = a.len();
    let mut i: usize = 0;
    while i < n
        invariant
            n == a@.len() == b@.len(),
            0 <= i <= n,
            forall|j: int| 0 <= j < i ==> a@[j] == b@[j],
        decreases n - i,
    {
        if a[i] != b[i] {
            return false;
        }
        i = i + 1;
    }
    proof {
        assert(a@ =~= b@);
    }
    true
}

/// Copies the byte range `[start, end)` of `v` into a fresh vector.
pub fn copy_range(v: &[u8], start: usize, end: usize) -> (r: Vec<u8>)
    requires
        start <= end <= v@.len(),
    ensures
        r@ == v@.subrange(start as int, end as int),
{
    let mut r: Vec<u8> = Vec::new();
    let mut i: usize = start;
    while i < end
        invariant
            start <= i <= end <= v@.len(),
            r@ == v@.subrange(start as int, i as int),
        decreases end - i,
    {
        r.push(v[i]);
        proof {
            assert(r@ =~= v@.subrange(start as int, i + 1));
        }
        i = i + 1;
    }
    r
}

/// Appends every byte of `s` to `r`.
pub fn push_all(r: &mut Vec<u8>, s: &[u8])
    ensures
        final(r)@ == old(r)@ + s@,
{
    let n: usize = s.len();
    let mut i: usize = 0;
    while i < n
        invariant
            0 <= i <= n == s@.len(),
            r@ == old(r)@ + s@.take(i as int),
        decreases n - i,
    {
        r.push(s[i]);
        proof {
            assert(old(r)@ + s@.take(i + 1) =~= (old(r)@ + s@.take(i as int)).push(s@[i as int]));
        }
        i = i + 1;
    }
    proof {
        assert(s@.take(n as int) =~= s@);
    }
}

/// A fresh vector with the same bytes.
pub fn clone_bytes(v: &Vec<u8>) -> (r: Vec<u8>)
    ensures
        r@ == v@,
{
    let r = copy_range(v.as_slice(), 0, v.len());
    proof {
        assert(v@.subrange(0, v@.len() as int) =~= v@);
    }
    r
}

/// Splits a canonical path into `(dir_of(p), base_of(p))`: the bytes before
/// the last separator, and the bytes after it.
pub fn split_path(p: &Vec<u8>) -> (r: (Vec<u8>, Vec<u8>))
    ensures
        r.0@ == dir_of(p@),
        r.1@ == base_of(p@),
{
    let n: usize = p.len();
    let mut k: usize = n;
    loop
        invariant
            0 <= k <= n == p@.len(),
            forall|j: int| k <= j < n ==> !is_sep(p@[j]),
        ensures
            0 <= k <= n == p@.len(),
            forall|j: int| k <= j < n ==> !is_sep(p@[j]),
            k > 0 ==> is_sep(p@[k - 1]),
        decreases k,
    {
        if k == 0 {
            break;
        }
        let c = p[k - 1];
        if c == SEP_SLASH || c == SEP_BACKSLASH {
            break;
        }
        k = k - 1;
    }
    proof {
        lemma_base_start_at(p@, k as int);
    }
    let dir = if k == 0 {
        Vec::new()
    } else {
        copy_range(p.as_slice(), 0, k - 1)
    };
    let base = copy_range(p.as_slice(), k, n);
    proof {
        if k == 0 {
            assert(dir@ =~= dir_of(p@));
        }
    }
    (dir, base)
}

} // verus!
