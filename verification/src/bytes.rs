//! Small verified helpers on byte strings.
//!
//! Paths, file names and asset text are all modelled as byte strings; these
//! helpers give the exact sequence-level behaviour the rest of the engine
//! builds its contracts on.

use vstd::prelude::*;

verus! {

/// True when `p` is a prefix of `s`.
pub open spec fn is_prefix_of(p: Seq<u8>, s: Seq<u8>) -> bool {
    p.len() <= s.len() && s.take(p.len() as int) == p
}

/// True when `x` is a suffix of `s`.
pub open spec fn is_suffix_of(x: Seq<u8>, s: Seq<u8>) -> bool {
    x.len() <= s.len() && s.skip(s.len() - x.len()) == x
}

/// Byte-for-byte equality of two byte strings.
pub fn bytes_eq(a: &Vec<u8>, b: &Vec<u8>) -> (r: bool)
    ensures
        r == (a@ == b@),
{
    if a.len() != b.len() {
        assert(a@ != b@) by {
            assert(a@.len() != b@.len());
        }
        return false;
    }
    let n = a.len();
    let mut i: usize = 0;
    while i < n
        invariant
            n == a.len() == b.len(),
            i <= n,
            forall|k: int| 0 <= k < i ==> a@[k] == b@[k],
        decreases n - i,
    {
        if a[i] != b[i] {
            return false;
        }
        i = i + 1;
    }
    assert(a@ =~= b@);
    true
}

/// Does `s` start with `p`?
pub fn starts_with(s: &Vec<u8>, p: &Vec<u8>) -> (r: bool)
    ensures
        r == is_prefix_of(p@, s@),
{
    if p.len() > s.len() {
        return false;
    }
    let n = p.len();
    let mut i: usize = 0;
    while i < n
        invariant
            n == p.len() <= s.len(),
            i <= n,
            forall|k: int| 0 <= k < i ==> s@[k] == p@[k],
        decreases n - i,
    {
        if s[i] != p[i] {
            assert(s@.take(p@.len() as int)[i as int] != p@[i as int]);
            return false;
        }
        i = i + 1;
    }
    assert(s@.take(p@.len() as int) =~= p@);
    true
}

/// Does `s` end with `x`?
pub fn ends_with(s: &Vec<u8>, x: &Vec<u8>) -> (r: bool)
    ensures
        r == is_suffix_of(x@, s@),
{
    if x.len() > s.len() {
        return false;
    }
    let off = s.len() - x.len();
    let n = x.len();
    let mut i: usize = 0;
    while i < n
        invariant
            n == x.len(),
            off == s.len() - x.len(),
            x.len() <= s.len(),
            i <= n,
            forall|k: int| 0 <= k < i ==> s@[off + k] == x@[k],
        decreases n - i,
    {
        if s[off + i] != x[i] {
            assert(s@.skip(s@.len() - x@.len())[i as int] != x@[i as int]);
            return false;
        }
        i = i + 1;
    }
    assert(s@.skip(s@.len() - x@.len()) =~= x@);
    true
}

/// Copy of the range `[from, to)` of `s`.
pub fn subvec(s: &Vec<u8>, from: usize, to: usize) -> (r: Vec<u8>)
    requires
        from <= to <= s.len(),
    ensures
        r@ == s@.subrange(from as int, to as int),
{
    let mut r: Vec<u8> = Vec::new();
    let mut i: usize = from;
    while i < to
        invariant
            from <= i <= to <= s.len(),
            r@ == s@.subrange(from as int, i as int),
        decreases to - i,
    {
        r.push(s[i]);
        assert(r@ =~= s@.subrange(from as int, i + 1 as int));
        i = i + 1;
    }
    r
}

/// A fresh copy of `v`.
pub fn copy_bytes(v: &Vec<u8>) -> (r: Vec<u8>)
    ensures
        r@ == v@,
{
    let r = subvec(v, 0, v.len());
    assert(v@.subrange(0, v@.len() as int) =~= v@);
    r
}

/// `a` with the bytes of `b` appended.
pub fn concat_bytes(a: &Vec<u8>, b: &Vec<u8>) -> (r: Vec<u8>)
    ensures
        r@ == a@ + b@,
{
    let mut r: Vec<u8> = Vec::new();
    let mut i: usize = 0;
    while i < a.len()
        invariant
            i <= a.len(),
            r@ == a@.take(i as int),
        decreases a.len() - i,
    {
        r.push(a[i]);
        assert(r@ =~= a@.take(i + 1 as int));
        i = i + 1;
    }
    assert(r@ =~= a@);
    let mut j: usize = 0;
    while j < b.len()
        invariant
            j <= b.len(),
            r@ == a@ + b@.take(j as int),
        decreases b.len() - j,
    {
        r.push(b[j]);
        assert(r@ =~= a@ + b@.take(j + 1 as int));
        j = j + 1;
    }
    assert(r@ =~= a@ + b@);
    r
}

/// Overwrite `dst[at .. at + src.len()]` with the bytes of `src`.
pub fn splice_into(dst: &mut Vec<u8>, at: usize, src: &Vec<u8>)
    requires
        at + src.len() <= old(dst).len(),
    ensures
        final(dst)@ == splice(old(dst)@, at as int, src@),
        final(dst)@.len() == old(dst)@.len(),
{
    let n = src.len();
    let mut i: usize = 0;
    while i < n
        invariant
            n == src.len(),
            at + n <= dst.len(),
            dst.len() == old(dst).len(),
            i <= n,
            forall|k: int| 0 <= k < i ==> dst@[at + k] == src@[k],
            forall|k: int| 0 <= k < dst@.len() && !(at <= k < at + i) ==> dst@[k] == old(dst)@[k],
        decreases n - i,
    {
        dst.set(at + i, src[i]);
        i = i + 1;
    }
    assert(dst@ =~= splice(old(dst)@, at as int, src@));
}

/// `s` with the range starting at `at` replaced by `r` (same length kept).
pub open spec fn splice(s: Seq<u8>, at: int, r: Seq<u8>) -> Seq<u8> {
    s.take(at) + r + s.skip(at + r.len())
}

} // verus!
