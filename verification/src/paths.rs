//! Byte-string paths.
//!
//! The engine treats every path as an opaque byte string whose components are
//! separated by `/`, exactly as the collection scanner hands them over.  The
//! functions here give joining, prefix stripping, and component splitting the
//! exact sequence-level contracts the copy engine builds on.

use vstd::prelude::*;

use crate::bytes::copy_bytes;
use crate::bytes::is_prefix_of;
use crate::bytes::starts_with;
use crate::bytes::subvec;

verus! {

/// ASCII code of the path separator `/`.
pub const SLASH: u8 = 47;

/// Join `a` and `b` with a separator, mirroring how path buffers push a
/// component: an absolute `b` replaces `a`, an empty side leaves the other
/// unchanged, and no separator is doubled.
pub open spec fn join_path_spec(a: Seq<u8>, b: Seq<u8>) -> Seq<u8> {
    if b.len() > 0 && b[0] == SLASH {
        b
    } else if a.len() == 0 {
        b
    } else if b.len() == 0 {
        a
    } else if a[a.len() - 1] == SLASH {
        a + b
    } else {
        a + seq![SLASH] + b
    }
}

/// `root` is a prefix of `s` on a component boundary: either they are equal,
/// or the remainder starts at a separator.
pub open spec fn is_dir_prefix_of(root: Seq<u8>, s: Seq<u8>) -> bool {
    is_prefix_of(root, s) && (root.len() == s.len() || s[root.len() as int] == SLASH || (
    root.len() > 0 && root[root.len() - 1] == SLASH))
}

/// `s` with the leading `root` removed, along with the separator that
/// follows it.
pub open spec fn strip_dir_prefix_spec(s: Seq<u8>, root: Seq<u8>) -> Seq<u8> {
    let rest = s.skip(root.len() as int);
    if rest.len() > 0 && rest[0] == SLASH {
        rest.skip(1)
    } else {
        rest
    }
}

/// The directory mirrored under `export_root`: the suffix of `dir` relative
/// to `src_root`, joined onto `export_root`.
pub open spec fn mirror_dir_spec(dir: Seq<u8>, src_root: Seq<u8>, export_root: Seq<u8>) -> Seq<
    u8,
> {
    join_path_spec(export_root, strip_dir_prefix_spec(dir, src_root))
}

/// Index of the last `/` in `s`, or `-1` when there is none.
pub open spec fn last_slash(s: Seq<u8>) -> int
    decreases s.len(),
{
    if s.len() == 0 {
        -1
    } else if s.last() == SLASH {
        s.len() - 1
    } else {
        last_slash(s.drop_last())
    }
}

/// The bytes after the last `/` (the whole string when there is none).
pub open spec fn file_name_spec(s: Seq<u8>) -> Seq<u8> {
    s.skip(last_slash(s) + 1)
}

/// The bytes before the last `/` (empty when there is none).
pub open spec fn parent_dir_spec(s: Seq<u8>) -> Seq<u8> {
    if last_slash(s) < 0 {
        Seq::empty()
    } else {
        s.take(last_slash(s))
    }
}

/// Position of the last separator of `s`, if any.
pub fn find_last_slash(s: &Vec<u8>) -> (r: Option<usize>)
    ensures
        match r {
            Some(i) => i < s@.len() && last_slash(s@) == i as int,
            None => last_slash(s@) == -1,
        },
{
    let mut i: usize = s.len();
    assert(s@.take(s@.len() as int) =~= s@);
    while i > 0
        invariant
            i <= s.len(),
            last_slash(s@) == last_slash(s@.take(i as int)),
        decreases i,
    {
        if s[i - 1] == SLASH {
            assert(s@.take(i as int).last() == SLASH);
            return Some(i - 1);
        }
        assert(s@.take(i as int).drop_last() =~= s@.take(i - 1 as int));
        i = i - 1;
    }
    assert(s@.take(0) =~= Seq::<u8>::empty());
    None
}

/// Executable form of `join_path_spec`.
pub fn join_path(a: &Vec<u8>, b: &Vec<u8>) -> (r: Vec<u8>)
    ensures
        r@ == join_path_spec(a@, b@),
{
    if b.len() > 0 && b[0] == SLASH {
        return copy_bytes(b);
    }
    if a.len() == 0 {
        return copy_bytes(b);
    }
    if b.len() == 0 {
        return copy_bytes(a);
    }
    if a[a.len() - 1] == SLASH {
        return crate::bytes::concat_bytes(a, b);
    }
    let mut r = copy_bytes(a);
    r.push(SLASH);
    assert(r@ =~= a@ + seq![SLASH]);
    let r2 = crate::bytes::concat_bytes(&r, b);
    assert(r2@ =~= a@ + seq![SLASH] + b@);
    r2
}

/// Does `s` start with `root` on a component boundary?
pub fn starts_with_dir(s: &Vec<u8>, root: &Vec<u8>) -> (r: bool)
    ensures
        r == is_dir_prefix_of(root@, s@),
{
    if !starts_with(s, root) {
        return false;
    }
    if root.len() == s.len() {
        return true;
    }
    if s[root.len()] == SLASH {
        return true;
    }
    if root.len() > 0 && root[root.len() - 1] == SLASH {
        return true;
    }
    false
}

/// Executable form of `strip_dir_prefix_spec`.
pub fn strip_dir_prefix(s: &Vec<u8>, root: &Vec<u8>) -> (r: Vec<u8>)
    requires
        is_prefix_of(root@, s@),
    ensures
        r@ == strip_dir_prefix_spec(s@, root@),
{
    let start: usize = if s.len() > root.len() && s[root.len()] == SLASH {
        root.len() + 1
    } else {
        root.len()
    };
    let r = subvec(s, start, s.len());
    assert(r@ =~= strip_dir_prefix_spec(s@, root@));
    r
}

/// Executable form of `mirror_dir_spec`.
pub fn mirror_dir(dir: &Vec<u8>, src_root: &Vec<u8>, export_root: &Vec<u8>) -> (r: Vec<u8>)
    requires
        is_dir_prefix_of(src_root@, dir@),
    ensures
        r@ == mirror_dir_spec(dir@, src_root@, export_root@),
{
    let rest = strip_dir_prefix(dir, src_root);
    join_path(export_root, &rest)
}

/// Executable form of `file_name_spec`.
pub fn file_name(s: &Vec<u8>) -> (r: Vec<u8>)
    ensures
        r@ == file_name_spec(s@),
{
    match find_last_slash(s) {
        Some(i) => {
            assert(i < s.len());
            let r = subvec(s, i + 1, s.len());
            assert(r@ =~= file_name_spec(s@));
            r
        },
        None => {
            let r = copy_bytes(s);
            assert(r@ =~= file_name_spec(s@));
            r
        },
    }
}

/// Executable form of `parent_dir_spec`.
pub fn parent_dir(s: &Vec<u8>) -> (r: Vec<u8>)
    ensures
        r@ == parent_dir_spec(s@),
{
    match find_last_slash(s) {
        Some(i) => subvec(s, 0, i),
        None => Vec::new(),
    }
}

} // verus!
