//! Convertible-extension configuration.
//!
//! A file name whose suffix appears in this list names an asset whose text
//! holds identifier references of its own, so a copied dependency with such
//! a name is enqueued for conversion too.  The list is the built-in defaults
//! extended by the non-comment, non-blank lines of an optional external list
//! file; duplicates are dropped.  It is built once at startup and read-only
//! afterwards.

use vstd::prelude::*;

use crate::bytes::ends_with;
use crate::bytes::is_suffix_of;

verus! {

/// ASCII code of `#`, the comment marker in the extension list file.
pub const COMMENT_MARK: u8 = 35;

/// The built-in extension list.
pub open spec fn default_extensions_spec() -> Seq<Seq<u8>> {
    seq![
        seq![46u8, 112u8, 114u8, 101u8, 102u8, 97u8, 98u8],  // ".prefab"
        seq![46u8, 109u8, 97u8, 116u8],  // ".mat"
        seq![46u8, 97u8, 115u8, 115u8, 101u8, 116u8],  // ".asset"
        seq![46u8, 117u8, 110u8, 105u8, 116u8, 121u8],  // ".unity"
        seq![46u8, 99u8, 111u8, 110u8, 116u8, 114u8, 111u8, 108u8, 108u8, 101u8, 114u8],  // ".controller"

    ]
}

/// Is `x` one of the extensions already listed?
pub open spec fn ext_listed(exts: Seq<Seq<u8>>, x: Seq<u8>) -> bool {
    exists|i: int| 0 <= i < exts.len() && exts[i] == x
}

/// A line of the external list extends the configuration when it is not a
/// comment, not blank, and not already listed.
pub open spec fn line_accepted(exts: Seq<Seq<u8>>, line: Seq<u8>) -> bool {
    line.len() > 0 && line[0] != COMMENT_MARK && !ext_listed(exts, line)
}

/// `base` extended by the accepted lines, in order of appearance.
pub open spec fn extend_extensions_spec(base: Seq<Seq<u8>>, lines: Seq<Seq<u8>>) -> Seq<Seq<u8>>
    decreases lines.len(),
{
    if lines.len() == 0 {
        base
    } else {
        let prev = extend_extensions_spec(base, lines.drop_last());
        if line_accepted(prev, lines.last()) {
            prev.push(lines.last())
        } else {
            prev
        }
    }
}

/// The full configuration built from the external file's lines.
pub open spec fn extension_list_spec(lines: Seq<Seq<u8>>) -> Seq<Seq<u8>> {
    extend_extensions_spec(default_extensions_spec(), lines)
}

/// Does `name` end with one of the listed extensions?
pub open spec fn name_matches_any_spec(exts: Seq<Seq<u8>>, name: Seq<u8>) -> bool {
    exists|i: int| 0 <= i < exts.len() && is_suffix_of(exts[i], name)
}

/// Push every byte of `bs` onto `v`, landing at the named target.
pub(crate) fn push_all(v: &mut Vec<u8>, target: Ghost<Seq<u8>>, bs: &[u8])
    requires
        old(v)@ + bs@ == target@,
    ensures
        final(v)@ == target@,
{
    let mut i: usize = 0;
    while i < bs.len()
        invariant
            i <= bs.len(),
            v@ == old(v)@ + bs@.take(i as int),
            old(v)@ + bs@ == target@,
        decreases bs.len() - i,
    {
        v.push(bs[i]);
        assert(v@ =~= old(v)@ + bs@.take(i + 1 as int));
        i = i + 1;
    }
    assert(bs@.take(bs@.len() as int) =~= bs@);
}

/// The built-in extension list as byte vectors.
pub fn default_extensions() -> (r: Vec<Vec<u8>>)
    ensures
        r.deep_view() == default_extensions_spec(),
{
    let mut r: Vec<Vec<u8>> = Vec::new();
    let mut e: Vec<u8> = Vec::new();
    push_all(&mut e, Ghost(default_extensions_spec()[0]), &[46, 112, 114, 101, 102, 97, 98]);
    r.push(e);
    let mut e: Vec<u8> = Vec::new();
    push_all(&mut e, Ghost(default_extensions_spec()[1]), &[46, 109, 97, 116]);
    r.push(e);
    let mut e: Vec<u8> = Vec::new();
    push_all(&mut e, Ghost(default_extensions_spec()[2]), &[46, 97, 115, 115, 101, 116]);
    r.push(e);
    let mut e: Vec<u8> = Vec::new();
    push_all(&mut e, Ghost(default_extensions_spec()[3]), &[46, 117, 110, 105, 116, 121]);
    r.push(e);
    let mut e: Vec<u8> = Vec::new();
    push_all(
        &mut e,
        Ghost(default_extensions_spec()[4]),
        &[46, 99, 111, 110, 116, 114, 111, 108, 108, 101, 114],
    );
    r.push(e);
    assert(r.deep_view() =~~= default_extensions_spec());
    r
}

/// Is `x` already present in the list?
pub fn ext_list_contains(exts: &Vec<Vec<u8>>, x: &Vec<u8>) -> (r: bool)
    ensures
        r == ext_listed(exts.deep_view(), x@),
{
    let mut i: usize = 0;
    while i < exts.len()
        invariant
            i <= exts.len(),
            forall|k: int| 0 <= k < i ==> exts.deep_view()[k] != x@,
        decreases exts.len() - i,
    {
        if crate::bytes::bytes_eq(&exts[i], x) {
            assert(exts.deep_view()[i as int] == x@);
            return true;
        }
        assert(exts.deep_view()[i as int] == exts@[i as int]@);
        i = i + 1;
    }
    false
}

/// Build the full extension configuration from the lines of the external
/// list file (the caller hands an empty list when the file is absent).
pub fn build_extension_list(lines: &Vec<Vec<u8>>) -> (r: Vec<Vec<u8>>)
    ensures
        r.deep_view() == extension_list_spec(lines.deep_view()),
{
    let mut r = default_extensions();
    let mut i: usize = 0;
    while i < lines.len()
        invariant
            i <= lines.len(),
            r.deep_view() == extend_extensions_spec(
                default_extensions_spec(),
                lines.deep_view().take(i as int),
            ),
        decreases lines.len() - i,
    {
        let ghost prefix = lines.deep_view().take(i as int);
        let ghost next = lines.deep_view().take(i + 1 as int);
        assert(next.drop_last() =~= prefix);
        assert(next.last() == lines.deep_view()[i as int]);
        let line = &lines[i];
        assert(line@ == lines.deep_view()[i as int]);
        if line.len() > 0 && line[0] != COMMENT_MARK && !ext_list_contains(&r, line) {
            let ghost pre = r.deep_view();
            r.push(crate::bytes::copy_bytes(line));
            assert(r.deep_view() =~= pre.push(line@));
        }
        i = i + 1;
    }
    assert(lines.deep_view().take(lines.deep_view().len() as int) =~= lines.deep_view());
    r
}

/// Does `name` end with one of the configured extensions?
pub fn name_matches_any(exts: &Vec<Vec<u8>>, name: &Vec<u8>) -> (r: bool)
    ensures
        r == name_matches_any_spec(exts.deep_view(), name@),
{
    let mut i: usize = 0;
    while i < exts.len()
        invariant
            i <= exts.len(),
            forall|k: int| 0 <= k < i ==> !is_suffix_of(exts.deep_view()[k], name@),
        decreases exts.len() - i,
    {
        assert(exts.deep_view()[i as int] == exts@[i as int]@);
        if ends_with(name, &exts[i]) {
            assert(is_suffix_of(exts.deep_view()[i as int], name@));
            return true;
        }
        i = i + 1;
    }
    false
}

} // verus!
