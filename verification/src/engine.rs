//! Transitive copy engine.
//!
//! One worklist entry at a time, the engine scans an asset's text for the
//! reference marker, resolves every referenced identifier against the remap
//! table and the missing set, rewrites remapped references in place, emits a
//! materialize action for each missing dependency it meets for the first
//! time, and enqueues newly discovered convertible dependencies.  The caller
//! owns the worklist loop and the file system: it reads each entry's text,
//! hands it here, then executes the returned actions and writes the
//! converted text.

use vstd::prelude::*;

use crate::bytes::copy_bytes;
use crate::bytes::splice;
use crate::bytes::splice_into;
use crate::bytes::subvec;
use crate::extensions::name_matches_any;
use crate::extensions::name_matches_any_spec;
use crate::paths::is_dir_prefix_of;
use crate::paths::join_path_spec;
use crate::paths::mirror_dir;
use crate::paths::mirror_dir_spec;
use crate::paths::parent_dir_spec;
use crate::paths::strip_dir_prefix_spec;
use crate::record::MetaRecord;
use crate::record::RecordModel;
use crate::record::primary_path_spec;
use crate::reconcile::RemapTable;
use crate::reconcile::remap_lookup;

verus! {

/// One pending conversion: a source file path and the destination directory
/// its converted text is written to.
pub struct ConversionRequest {
    pub path: Vec<u8>,
    pub output_path: Vec<u8>,
}

/// Mathematical view of a `ConversionRequest`.
pub ghost struct RequestModel {
    pub path: Seq<u8>,
    pub output_path: Seq<u8>,
}

impl View for ConversionRequest {
    type V = RequestModel;

    open spec fn view(&self) -> RequestModel {
        RequestModel { path: self.path@, output_path: self.output_path@ }
    }
}

impl DeepView for ConversionRequest {
    type V = RequestModel;

    open spec fn deep_view(&self) -> RequestModel {
        self@
    }
}

/// One missing dependency to materialize: create its mirrored destination
/// directory, then copy the record's primary and sidecar files into it
/// unless the destination copies already exist.
pub struct MaterializeAction {
    pub record: MetaRecord,
    pub dst_dir: Vec<u8>,
}

/// Mathematical view of a `MaterializeAction`.
pub ghost struct ActionModel {
    pub record: RecordModel,
    pub dst_dir: Seq<u8>,
}

impl View for MaterializeAction {
    type V = ActionModel;

    open spec fn view(&self) -> ActionModel {
        ActionModel { record: self.record@, dst_dir: self.dst_dir@ }
    }
}

impl DeepView for MaterializeAction {
    type V = ActionModel;

    open spec fn deep_view(&self) -> ActionModel {
        self@
    }
}

/// The engine's whole mutable state while one text is processed: the
/// converted buffer, the missing set, the worklist, and the actions emitted
/// so far.
#[verifier::ext_equal]
pub ghost struct EngineModel {
    pub text: Seq<u8>,
    pub missing: Seq<RecordModel>,
    pub queue: Seq<RequestModel>,
    pub actions: Seq<ActionModel>,
}

/// Bundle the views of the engine's exec state.
pub open spec fn engine_model(
    text: Seq<u8>,
    missing: Seq<RecordModel>,
    queue: Seq<RequestModel>,
    actions: Seq<ActionModel>,
) -> EngineModel {
    EngineModel { text, missing, queue, actions }
}

/// The literal reference marker: the ASCII bytes of `"guid: "`.
pub open spec fn guid_marker() -> Seq<u8> {
    seq![103u8, 117u8, 105u8, 100u8, 58u8, 32u8]  // "guid: "

}

/// A reference sits at `p`: the marker starts there and a full 32-byte
/// identifier follows it.
pub open spec fn is_marker_at(s: Seq<u8>, p: int) -> bool {
    0 <= p && p + 38 <= s.len() && s.subrange(p, p + 6) == guid_marker()
}

/// The identifier referenced at marker position `p`.
pub open spec fn ref_identifier(s: Seq<u8>, p: int) -> Seq<u8> {
    s.subrange(p + 6, p + 38)
}

/// All reference positions at or after `i`, in increasing order.
pub open spec fn marker_positions_from(s: Seq<u8>, i: int) -> Seq<int>
    decreases s.len() - i,
    when i <= s.len()
{
    if i >= s.len() {
        Seq::empty()
    } else if is_marker_at(s, i) {
        seq![i] + marker_positions_from(s, i + 1)
    } else {
        marker_positions_from(s, i + 1)
    }
}

/// All reference positions of the text, in order of appearance.
pub open spec fn marker_positions(s: Seq<u8>) -> Seq<int> {
    marker_positions_from(s, 0)
}

/// Every listed position is a reference position at or after `i`.
pub proof fn lemma_marker_positions_are_markers(s: Seq<u8>, i: int)
    requires
        0 <= i <= s.len(),
    ensures
        forall|k: int|
            0 <= k < marker_positions_from(s, i).len() ==> is_marker_at(
                s,
                #[trigger] marker_positions_from(s, i)[k],
            ) && marker_positions_from(s, i)[k] >= i,
    decreases s.len() - i,
{
    if i < s.len() {
        lemma_marker_positions_are_markers(s, i + 1);
        let rest = marker_positions_from(s, i + 1);
        if is_marker_at(s, i) {
            let m = seq![i] + rest;
            assert(marker_positions_from(s, i) == m);
            assert(forall|k: int|
                0 <= k < m.len() ==> #[trigger] m[k] == if k == 0 {
                    i
                } else {
                    rest[k - 1]
                });
            assert(forall|k: int| 0 <= k < m.len() ==> is_marker_at(s, #[trigger] m[k]) && m[k] >= i);
        }
    }
}

/// First missing record carrying the identifier `g`, if any.
pub open spec fn find_missing(ms: Seq<RecordModel>, g: Seq<u8>) -> Option<int>
    decreases ms.len(),
{
    if ms.len() == 0 {
        Option::None
    } else if ms[0].identifier == g {
        Option::Some(0int)
    } else {
        match find_missing(ms.drop_first(), g) {
            Option::Some(j) => Option::Some(j + 1),
            Option::None => Option::None,
        }
    }
}

/// `find_missing` returns exactly the first index whose identifier is `g`.
pub proof fn lemma_find_missing_char(ms: Seq<RecordModel>, g: Seq<u8>)
    ensures
        match find_missing(ms, g) {
            Option::Some(j) => 0 <= j < ms.len() && ms[j].identifier == g && forall|k: int|
                0 <= k < j ==> ms[k].identifier != g,
            Option::None => forall|k: int| 0 <= k < ms.len() ==> ms[k].identifier != g,
        },
    decreases ms.len(),
{
    if ms.len() > 0 && ms[0].identifier != g {
        lemma_find_missing_char(ms.drop_first(), g);
        assert(forall|k: int| 1 <= k < ms.len() ==> ms[k] == ms.drop_first()[k - 1]);
    }
}

/// Does some pending worklist entry already target this source path?
pub open spec fn has_queue_path(q: Seq<RequestModel>, p: Seq<u8>) -> bool {
    exists|i: int| 0 <= i < q.len() && q[i].path == p
}

/// Every remap target carries a full-length identifier.
pub open spec fn remap_values_wf(t: Seq<(Seq<u8>, RecordModel)>) -> bool {
    forall|i: int| 0 <= i < t.len() ==> #[trigger] t[i].1.identifier.len() == 32
}

/// Every missing record's directory lies under the source root.
pub open spec fn missing_dirs_ok(ms: Seq<RecordModel>, src_root: Seq<u8>) -> bool {
    forall|i: int| 0 <= i < ms.len() ==> is_dir_prefix_of(src_root, #[trigger] ms[i].directory)
}

/// Resolve the single reference at position `p`, as the engine does it: a
/// remapped identifier is rewritten in place; otherwise a missing record
/// with that identifier is materialized, enqueued when convertible and not
/// already pending, and removed from the missing set; otherwise nothing
/// changes.
pub open spec fn step_ref(
    orig: Seq<u8>,
    p: int,
    st: EngineModel,
    remap: Seq<(Seq<u8>, RecordModel)>,
    exts: Seq<Seq<u8>>,
    src_root: Seq<u8>,
    export_root: Seq<u8>,
) -> EngineModel {
    let g = ref_identifier(orig, p);
    match remap_lookup(remap, g) {
        Option::Some(d) => EngineModel {
            text: splice(st.text, p + 6, d.identifier),
            missing: st.missing,
            queue: st.queue,
            actions: st.actions,
        },
        Option::None => match find_missing(st.missing, g) {
            Option::None => st,
            Option::Some(j) => {
                let rec = st.missing[j];
                let dir = mirror_dir_spec(rec.directory, src_root, export_root);
                let asset_src = primary_path_spec(rec);
                let enqueue = name_matches_any_spec(exts, rec.display_name) && !has_queue_path(
                    st.queue,
                    asset_src,
                );
                EngineModel {
                    text: st.text,
                    missing: st.missing.remove(j),
                    queue: if enqueue {
                        st.queue.push(RequestModel { path: asset_src, output_path: dir })
                    } else {
                        st.queue
                    },
                    actions: st.actions.push(ActionModel { record: rec, dst_dir: dir }),
                }
            },
        },
    }
}

/// Resolve the references at the listed positions, left to right.
pub open spec fn run_refs(
    orig: Seq<u8>,
    ps: Seq<int>,
    st: EngineModel,
    remap: Seq<(Seq<u8>, RecordModel)>,
    exts: Seq<Seq<u8>>,
    src_root: Seq<u8>,
    export_root: Seq<u8>,
) -> EngineModel
    decreases ps.len(),
{
    if ps.len() == 0 {
        st
    } else {
        run_refs(
            orig,
            ps.drop_first(),
            step_ref(orig, ps[0], st, remap, exts, src_root, export_root),
            remap,
            exts,
            src_root,
            export_root,
        )
    }
}

/// Is a full reference (marker plus identifier) present at `i`?
fn check_marker_at(s: &Vec<u8>, i: usize) -> (r: bool)
    requires
        i < s.len(),
    ensures
        r == is_marker_at(s@, i as int),
{
    if s.len() < 38 || i > s.len() - 38 {
        return false;
    }
    if s[i] == 103 && s[i + 1] == 117 && s[i + 2] == 105 && s[i + 3] == 100 && s[i + 4] == 58 && s[i
        + 5] == 32 {
        assert(s@.subrange(i as int, i + 6) =~= guid_marker());
        true
    } else {
        assert(s@.subrange(i as int, i + 6) != guid_marker()) by {
            if s@.subrange(i as int, i + 6) == guid_marker() {
                assert(s@[i as int] == 103 && s@[i + 1] == 117 && s@[i + 2] == 105 && s@[i + 3]
                    == 100 && s@[i + 4] == 58 && s@[i + 5] == 32) by {
                    assert(forall|k: int|
                        0 <= k < 6 ==> #[trigger] s@.subrange(i as int, i + 6)[k] == s@[i + k]);
                }
            }
        }
        false
    }
}

/// Every reference position of the text, in order of appearance.
pub fn find_markers(s: &Vec<u8>) -> (r: Vec<usize>)
    ensures
        r@.map_values(|u: usize| u as int) == marker_positions(s@),
{
    let mut r: Vec<usize> = Vec::new();
    let mut i: usize = 0;
    assert(r@.map_values(|u: usize| u as int) =~= Seq::<int>::empty());
    while i < s.len()
        invariant
            i <= s.len(),
            marker_positions(s@) == r@.map_values(|u: usize| u as int) + marker_positions_from(
                s@,
                i as int,
            ),
        decreases s.len() - i,
    {
        if check_marker_at(s, i) {
            let ghost pre = r@.map_values(|u: usize| u as int);
            r.push(i);
            assert(r@.map_values(|u: usize| u as int) =~= pre.push(i as int));
            assert(pre + (seq![i as int] + marker_positions_from(s@, i + 1)) =~= pre.push(i as int)
                + marker_positions_from(s@, i + 1));
        }
        i = i + 1;
    }
    assert(marker_positions_from(s@, s@.len() as int) =~= Seq::<int>::empty());
    assert(marker_positions(s@) =~= r@.map_values(|u: usize| u as int));
    r
}

/// First missing record carrying the identifier `g`, if any.
fn find_in_missing(missing: &Vec<MetaRecord>, g: &Vec<u8>) -> (r: Option<usize>)
    ensures
        match r {
            Some(j) => j < missing.len() && find_missing(missing.deep_view(), g@)
                == Option::Some(j as int),
            None => find_missing(missing.deep_view(), g@) is None,
        },
{
    let ghost mv = missing.deep_view();
    proof {
        lemma_find_missing_char(mv, g@);
    }
    let mut i: usize = 0;
    while i < missing.len()
        invariant
            i <= missing.len(),
            mv == missing.deep_view(),
            forall|k: int| 0 <= k < i ==> mv[k].identifier != g@,
        decreases missing.len() - i,
    {
        assert(mv[i as int] == missing@[i as int]@);
        if crate::bytes::bytes_eq(&missing[i].identifier, g) {
            proof {
                lemma_find_missing_char(mv, g@);
                if find_missing(mv, g@) is None {
                    assert(mv[i as int].identifier != g@);
                }
                let j = find_missing(mv, g@)->Some_0;
                if j < i {
                    assert(mv[j].identifier == g@);
                }
                if j > i as int {
                    assert(mv[i as int].identifier != g@);
                }
            }
            return Some(i);
        }
        i = i + 1;
    }
    proof {
        if find_missing(mv, g@) is Some {
            let j = find_missing(mv, g@)->Some_0;
            assert(mv[j].identifier != g@);
        }
    }
    None
}

/// Does some pending worklist entry already target this source path?
fn queue_contains_path(queue: &Vec<ConversionRequest>, p: &Vec<u8>) -> (r: bool)
    ensures
        r == has_queue_path(queue.deep_view(), p@),
{
    let mut i: usize = 0;
    while i < queue.len()
        invariant
            i <= queue.len(),
            forall|k: int| 0 <= k < i ==> queue.deep_view()[k].path != p@,
        decreases queue.len() - i,
    {
        assert(queue.deep_view()[i as int] == queue@[i as int]@);
        if crate::bytes::bytes_eq(&queue[i].path, p) {
            assert(queue.deep_view()[i as int].path == p@);
            return true;
        }
        i = i + 1;
    }
    false
}

/// Resolve the single reference at position `p` of the original text.
fn resolve_ref(
    contents: &Vec<u8>,
    p: usize,
    converted: &mut Vec<u8>,
    remap: &RemapTable,
    missing: &mut Vec<MetaRecord>,
    queue: &mut Vec<ConversionRequest>,
    actions: &mut Vec<MaterializeAction>,
    exts: &Vec<Vec<u8>>,
    src_root: &Vec<u8>,
    export_root: &Vec<u8>,
)
    requires
        is_marker_at(contents@, p as int),
        old(converted)@.len() == contents@.len(),
        remap_values_wf(remap@),
        missing_dirs_ok(old(missing).deep_view(), src_root@),
    ensures
        engine_model(
            final(converted)@,
            final(missing).deep_view(),
            final(queue).deep_view(),
            final(actions).deep_view(),
        ) == step_ref(
            contents@,
            p as int,
            engine_model(
                old(converted)@,
                old(missing).deep_view(),
                old(queue).deep_view(),
                old(actions).deep_view(),
            ),
            remap@,
            exts.deep_view(),
            src_root@,
            export_root@,
        ),
        final(converted)@.len() == old(converted)@.len(),
        missing_dirs_ok(final(missing).deep_view(), src_root@),
{
    let ghost st0 = engine_model(
        old(converted)@,
        old(missing).deep_view(),
        old(queue).deep_view(),
        old(actions).deep_view(),
    );
    let ghost stepped = step_ref(
        contents@,
        p as int,
        st0,
        remap@,
        exts.deep_view(),
        src_root@,
        export_root@,
    );
    assert(p + 38 <= contents.len());
    let guid = subvec(contents, p + 6, p + 38);
    assert(guid@ == ref_identifier(contents@, p as int));
    match remap.lookup_index(&guid) {
        Some(j) => {
            let target = &remap.entries[j].record.identifier;
            assert(remap.entries@[j as int]@.1.identifier.len() == 32) by {
                assert(remap@[j as int] == remap.entries@[j as int]@);
            }
            splice_into(converted, p + 6, target);
            assert(engine_model(
                converted@,
                missing.deep_view(),
                queue.deep_view(),
                actions.deep_view(),
            ) =~= stepped);
        },
        None => {
            match find_in_missing(missing, &guid) {
                None => {
                    assert(engine_model(
                        converted@,
                        missing.deep_view(),
                        queue.deep_view(),
                        actions.deep_view(),
                    ) =~= stepped);
                },
                Some(j) => {
                    let ghost mv0 = old(missing).deep_view();
                    assert(is_dir_prefix_of(src_root@, mv0[j as int].directory));
                    let rec = missing.remove(j);
                    assert(rec@ == mv0[j as int]);
                    assert(missing.deep_view() =~= mv0.remove(j as int));
                    let dir = mirror_dir(&rec.directory, src_root, export_root);
                    let asset_src = rec.primary_path();
                    let convertible = name_matches_any(exts, &rec.display_name);
                    let pending = queue_contains_path(queue, &asset_src);
                    if convertible && !pending {
                        let ghost qpre = queue.deep_view();
                        let out_dir = copy_bytes(&dir);
                        queue.push(ConversionRequest { path: asset_src, output_path: out_dir });
                        assert(queue.deep_view() =~= qpre.push(
                            RequestModel { path: primary_path_spec(rec@), output_path: dir@ },
                        ));
                    }
                    let ghost apre = actions.deep_view();
                    actions.push(MaterializeAction { record: rec, dst_dir: dir });
                    assert(actions.deep_view() =~= apre.push(
                        ActionModel { record: mv0[j as int], dst_dir: stepped.actions.last().dst_dir },
                    ));
                    assert(engine_model(
                        converted@,
                        missing.deep_view(),
                        queue.deep_view(),
                        actions.deep_view(),
                    ) =~= stepped);
                    assert(missing_dirs_ok(missing.deep_view(), src_root@)) by {
                        assert(forall|k: int|
                            0 <= k < missing.deep_view().len() ==> #[trigger] missing.deep_view()[k]
                                == if k < j { mv0[k] } else { mv0[k + 1] });
                    }
                },
            }
        },
    }
}

/// Process one worklist entry's text: resolve every reference in order of
/// appearance, returning the converted text and the materialize actions for
/// the missing dependencies met, while removing those dependencies from the
/// missing set and enqueuing the convertible ones.
pub fn process_contents(
    contents: &Vec<u8>,
    remap: &RemapTable,
    missing: &mut Vec<MetaRecord>,
    queue: &mut Vec<ConversionRequest>,
    exts: &Vec<Vec<u8>>,
    src_root: &Vec<u8>,
    export_root: &Vec<u8>,
) -> (out: (Vec<u8>, Vec<MaterializeAction>))
    requires
        remap_values_wf(remap@),
        missing_dirs_ok(old(missing).deep_view(), src_root@),
    ensures
        ({
            let st0 = engine_model(
                contents@,
                old(missing).deep_view(),
                old(queue).deep_view(),
                Seq::<ActionModel>::empty(),
            );
            let res = run_refs(
                contents@,
                marker_positions(contents@),
                st0,
                remap@,
                exts.deep_view(),
                src_root@,
                export_root@,
            );
            out.0@ == res.text && final(missing).deep_view() == res.missing && final(queue).deep_view()
                == res.queue && out.1.deep_view() == res.actions
        }),
{
    let ghost st0 = engine_model(
        contents@,
        old(missing).deep_view(),
        old(queue).deep_view(),
        Seq::<ActionModel>::empty(),
    );
    let ghost ps = marker_positions(contents@);
    let mut converted = copy_bytes(contents);
    let positions = find_markers(contents);
    let mut actions: Vec<MaterializeAction> = Vec::new();
    assert(actions.deep_view() =~= Seq::<ActionModel>::empty());
    proof {
        lemma_marker_positions_are_markers(contents@, 0);
        assert(ps.skip(0) =~= ps);
    }
    let mut k: usize = 0;
    while k < positions.len()
        invariant
            k <= positions.len(),
            positions@.map_values(|u: usize| u as int) == ps,
            ps == marker_positions(contents@),
            forall|m: int| 0 <= m < ps.len() ==> is_marker_at(contents@, #[trigger] ps[m]),
            converted@.len() == contents@.len(),
            missing_dirs_ok(missing.deep_view(), src_root@),
            remap_values_wf(remap@),
            run_refs(contents@, ps, st0, remap@, exts.deep_view(), src_root@, export_root@)
                == run_refs(
                contents@,
                ps.skip(k as int),
                engine_model(
                    converted@,
                    missing.deep_view(),
                    queue.deep_view(),
                    actions.deep_view(),
                ),
                remap@,
                exts.deep_view(),
                src_root@,
                export_root@,
            ),
        decreases positions.len() - k,
    {
        let p = positions[k];
        assert(ps[k as int] == p as int);
        assert(is_marker_at(contents@, p as int));
        let ghost cur = engine_model(
            converted@,
            missing.deep_view(),
            queue.deep_view(),
            actions.deep_view(),
        );
        assert(ps.skip(k as int)[0] == ps[k as int]);
        assert(ps.skip(k as int).drop_first() =~= ps.skip(k + 1 as int));
        resolve_ref(
            contents,
            p,
            &mut converted,
            remap,
            missing,
            queue,
            &mut actions,
            exts,
            src_root,
            export_root,
        );
        assert(engine_model(
            converted@,
            missing.deep_view(),
            queue.deep_view(),
            actions.deep_view(),
        ) == step_ref(
            contents@,
            p as int,
            cur,
            remap@,
            exts.deep_view(),
            src_root@,
            export_root@,
        ));
        k = k + 1;
    }
    assert(ps.skip(positions@.len() as int) =~= Seq::<int>::empty());
    (converted, actions)
}

/// The first component of the shared-cache subpath.
pub open spec fn cache_component_one() -> Seq<u8> {
    seq![76u8, 105u8, 98u8, 114u8, 97u8, 114u8, 121u8]  // "Library"

}

/// The second component of the shared-cache subpath.
pub open spec fn cache_component_two() -> Seq<u8> {
    seq![80u8, 97u8, 99u8, 107u8, 97u8, 103u8, 101u8, 67u8, 97u8, 99u8, 104u8, 101u8]  // "PackageCache"

}

/// The auxiliary shared-cache directory searched beside the destination:
/// the destination root's parent, descended into the fixed two-level
/// subpath.
pub open spec fn package_cache_dir_spec(dst_root: Seq<u8>) -> Seq<u8> {
    join_path_spec(
        join_path_spec(parent_dir_spec(dst_root), cache_component_one()),
        cache_component_two(),
    )
}

/// Executable form of `package_cache_dir_spec`.
pub fn package_cache_dir(dst_root: &Vec<u8>) -> (r: Vec<u8>)
    ensures
        r@ == package_cache_dir_spec(dst_root@),
{
    let mut library: Vec<u8> = Vec::new();
    crate::extensions::push_all(
        &mut library,
        Ghost(cache_component_one()),
        &[76, 105, 98, 114, 97, 114, 121],
    );
    let mut cache: Vec<u8> = Vec::new();
    crate::extensions::push_all(
        &mut cache,
        Ghost(cache_component_two()),
        &[80, 97, 99, 107, 97, 103, 101, 67, 97, 99, 104, 101],
    );
    let parent = crate::paths::parent_dir(dst_root);
    let first = crate::paths::join_path(&parent, &library);
    crate::paths::join_path(&first, &cache)
}

/// Spec form of the worklist entry built from one requested asset path.
pub open spec fn request_import_spec(arg: Seq<u8>, src_root: Seq<u8>) -> Seq<u8> {
    if is_dir_prefix_of(src_root, arg) {
        arg
    } else {
        join_path_spec(src_root, arg)
    }
}

/// Spec form of the destination directory of one requested asset path.
pub open spec fn request_output_spec(arg: Seq<u8>, src_root: Seq<u8>, export_root: Seq<u8>) -> Seq<
    u8,
> {
    let sanitized = if is_dir_prefix_of(src_root, arg) {
        strip_dir_prefix_spec(arg, src_root)
    } else {
        arg
    };
    parent_dir_spec(join_path_spec(export_root, sanitized))
}

/// Build the worklist entry for one requested asset path: the source path
/// is anchored under the source root when given relative to it, and the
/// output directory mirrors the path's directory under the export root.
pub fn build_request(arg: &Vec<u8>, src_root: &Vec<u8>, export_root: &Vec<u8>) -> (r:
    ConversionRequest)
    ensures
        r.path@ == request_import_spec(arg@, src_root@),
        r.output_path@ == request_output_spec(arg@, src_root@, export_root@),
{
    let under_root = crate::paths::starts_with_dir(arg, src_root);
    let sanitized = if under_root {
        crate::paths::strip_dir_prefix(arg, src_root)
    } else {
        copy_bytes(arg)
    };
    let joined = crate::paths::join_path(export_root, &sanitized);
    let output_path = crate::paths::parent_dir(&joined);
    let path = if under_root {
        copy_bytes(arg)
    } else {
        crate::paths::join_path(src_root, arg)
    };
    ConversionRequest { path, output_path }
}

/// Destination path of the converted text: the entry's output directory
/// plus the source file's name.
pub fn output_file_path(req: &ConversionRequest) -> (r: Vec<u8>)
    ensures
        r@ == join_path_spec(req@.output_path, crate::paths::file_name_spec(req@.path)),
{
    let name = crate::paths::file_name(&req.path);
    crate::paths::join_path(&req.output_path, &name)
}

/// Destination path of the sidecar copied beside the converted text.
pub fn output_sidecar_path(req: &ConversionRequest) -> (r: Vec<u8>)
    ensures
        r@ == join_path_spec(req@.output_path, crate::paths::file_name_spec(req@.path))
            + crate::record::meta_suffix(),
{
    let p = output_file_path(req);
    crate::record::with_meta_suffix(&p)
}

/// Source path of the sidecar belonging to the entry's primary file.
pub fn source_sidecar_path(req: &ConversionRequest) -> (r: Vec<u8>)
    ensures
        r@ == req@.path + crate::record::meta_suffix(),
{
    crate::record::with_meta_suffix(&req.path)
}

} // verus!
