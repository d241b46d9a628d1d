//! Engine-wide laws.
//!
//! Each public proof function here states one property of the
//! reconciliation stage or of the copy engine as a whole, over the same
//! models the executable functions' contracts use.

use vstd::prelude::*;

use crate::bytes::splice;
use crate::engine::ActionModel;
use crate::engine::EngineModel;
use crate::engine::RequestModel;
use crate::engine::find_missing;
use crate::engine::is_marker_at;
use crate::engine::lemma_find_missing_char;
use crate::engine::missing_dirs_ok;
use crate::engine::ref_identifier;
use crate::engine::remap_values_wf;
use crate::engine::run_refs;
use crate::engine::step_ref;
use crate::paths::SLASH;
use crate::paths::is_dir_prefix_of;
use crate::paths::mirror_dir_spec;
use crate::paths::strip_dir_prefix_spec;
use crate::record::RecordModel;
use crate::record::record_wf;
use crate::reconcile::Classification;
use crate::reconcile::classify;
use crate::reconcile::missing_model;
use crate::reconcile::remap_lookup;
use crate::reconcile::remap_model;

verus! {

/// Identifiers are unique within one scanned collection.
pub open spec fn unique_identifiers(rs: Seq<RecordModel>) -> bool {
    forall|i: int, j: int|
        0 <= i < j < rs.len() ==> (#[trigger] rs[i].identifier) != (#[trigger] rs[j].identifier)
}

/// Does some record of `ms` carry the identifier `g`?
pub open spec fn missing_has_id(ms: Seq<RecordModel>, g: Seq<u8>) -> bool {
    exists|k: int| 0 <= k < ms.len() && ms[k].identifier == g
}

/// Does some remap entry carry the key `g`?
pub open spec fn remap_has_key(t: Seq<(Seq<u8>, RecordModel)>, g: Seq<u8>) -> bool {
    exists|k: int| 0 <= k < t.len() && t[k].0 == g
}

/// How many materialize actions target a record with identifier `g`.
pub open spec fn action_count(acts: Seq<ActionModel>, g: Seq<u8>) -> int
    decreases acts.len(),
{
    if acts.len() == 0 {
        0
    } else {
        action_count(acts.drop_last(), g) + if acts.last().record.identifier == g {
            1int
        } else {
            0int
        }
    }
}

/// How many missing records carry the identifier `g`.
pub open spec fn missing_id_count(ms: Seq<RecordModel>, g: Seq<u8>) -> int
    decreases ms.len(),
{
    if ms.len() == 0 {
        0
    } else {
        missing_id_count(ms.drop_last(), g) + if ms.last().identifier == g {
            1int
        } else {
            0int
        }
    }
}

/// No two pending worklist entries target the same source path.
pub open spec fn queue_paths_distinct(q: Seq<RequestModel>) -> bool {
    forall|i: int, j: int| 0 <= i < j < q.len() ==> (#[trigger] q[i].path) != (#[trigger] q[j].path)
}

proof fn lemma_missing_id_count_nonneg(ms: Seq<RecordModel>, g: Seq<u8>)
    ensures
        missing_id_count(ms, g) >= 0,
    decreases ms.len(),
{
    if ms.len() > 0 {
        lemma_missing_id_count_nonneg(ms.drop_last(), g);
    }
}

proof fn lemma_action_count_push(acts: Seq<ActionModel>, a: ActionModel, g: Seq<u8>)
    ensures
        action_count(acts.push(a), g) == action_count(acts, g) + if a.record.identifier == g {
            1int
        } else {
            0int
        },
{
    assert(acts.push(a).drop_last() =~= acts);
    assert(acts.push(a).last() == a);
}

proof fn lemma_missing_id_count_zero(ms: Seq<RecordModel>, g: Seq<u8>)
    requires
        forall|k: int| 0 <= k < ms.len() ==> (#[trigger] ms[k].identifier) != g,
    ensures
        missing_id_count(ms, g) == 0,
    decreases ms.len(),
{
    if ms.len() > 0 {
        lemma_missing_id_count_zero(ms.drop_last(), g);
    }
}

proof fn lemma_missing_id_count_remove(ms: Seq<RecordModel>, j: int, g: Seq<u8>)
    requires
        0 <= j < ms.len(),
    ensures
        missing_id_count(ms.remove(j), g) == missing_id_count(ms, g) - if ms[j].identifier == g {
            1int
        } else {
            0int
        },
    decreases ms.len(),
{
    if j == ms.len() - 1 {
        assert(ms.remove(j) =~= ms.drop_last());
    } else {
        lemma_missing_id_count_remove(ms.drop_last(), j, g);
        assert(ms.remove(j).drop_last() =~= ms.drop_last().remove(j));
        assert(ms.remove(j).last() == ms.last());
    }
}

/// With unique identifiers, no identifier is carried twice.
pub proof fn lemma_unique_missing_id_count(ms: Seq<RecordModel>, g: Seq<u8>)
    requires
        unique_identifiers(ms),
    ensures
        missing_id_count(ms, g) <= 1,
    decreases ms.len(),
{
    if ms.len() > 0 {
        assert(unique_identifiers(ms.drop_last()));
        lemma_unique_missing_id_count(ms.drop_last(), g);
        if ms.last().identifier == g {
            assert(forall|k: int|
                0 <= k < ms.drop_last().len() ==> (#[trigger] ms.drop_last()[k].identifier) != g);
            lemma_missing_id_count_zero(ms.drop_last(), g);
        }
    }
}

/// One resolution step keeps, for every identifier, the number of actions
/// already emitted plus the number of missing records: a copy action is
/// emitted exactly when a missing record is consumed.
pub proof fn lemma_step_copy_budget(
    orig: Seq<u8>,
    p: int,
    st: EngineModel,
    remap: Seq<(Seq<u8>, RecordModel)>,
    exts: Seq<Seq<u8>>,
    src_root: Seq<u8>,
    export_root: Seq<u8>,
    g: Seq<u8>,
)
    ensures
        ({
            let next = step_ref(orig, p, st, remap, exts, src_root, export_root);
            action_count(next.actions, g) + missing_id_count(next.missing, g) == action_count(
                st.actions,
                g,
            ) + missing_id_count(st.missing, g)
        }),
{
    let gref = ref_identifier(orig, p);
    let next = step_ref(orig, p, st, remap, exts, src_root, export_root);
    if remap_lookup(remap, gref) is None {
        match find_missing(st.missing, gref) {
            Option::None => {},
            Option::Some(j) => {
                lemma_find_missing_char(st.missing, gref);
                lemma_action_count_push(
                    st.actions,
                    next.actions.last(),
                    g,
                );
                lemma_missing_id_count_remove(st.missing, j, g);
            },
        }
    }
}

/// A whole pass keeps the copy budget of every identifier.
pub proof fn lemma_run_copy_budget(
    orig: Seq<u8>,
    ps: Seq<int>,
    st: EngineModel,
    remap: Seq<(Seq<u8>, RecordModel)>,
    exts: Seq<Seq<u8>>,
    src_root: Seq<u8>,
    export_root: Seq<u8>,
    g: Seq<u8>,
)
    ensures
        ({
            let res = run_refs(orig, ps, st, remap, exts, src_root, export_root);
            action_count(res.actions, g) + missing_id_count(res.missing, g) == action_count(
                st.actions,
                g,
            ) + missing_id_count(st.missing, g)
        }),
    decreases ps.len(),
{
    if ps.len() > 0 {
        let next = step_ref(orig, ps[0], st, remap, exts, src_root, export_root);
        lemma_step_copy_budget(orig, ps[0], st, remap, exts, src_root, export_root, g);
        lemma_run_copy_budget(orig, ps.drop_first(), next, remap, exts, src_root, export_root, g);
    }
}

/// At-most-once copy: when at most one missing record carries an identifier
/// and no action was emitted for it yet, a whole pass emits at most one
/// materialize action for it, however many references name it.
pub proof fn lemma_at_most_once_copy(
    orig: Seq<u8>,
    ps: Seq<int>,
    st: EngineModel,
    remap: Seq<(Seq<u8>, RecordModel)>,
    exts: Seq<Seq<u8>>,
    src_root: Seq<u8>,
    export_root: Seq<u8>,
    g: Seq<u8>,
)
    requires
        missing_id_count(st.missing, g) <= 1,
        action_count(st.actions, g) == 0,
    ensures
        action_count(run_refs(orig, ps, st, remap, exts, src_root, export_root).actions, g) <= 1,
{
    let res = run_refs(orig, ps, st, remap, exts, src_root, export_root);
    lemma_run_copy_budget(orig, ps, st, remap, exts, src_root, export_root, g);
    lemma_missing_id_count_nonneg(res.missing, g);
}

/// An identifier still carried by some missing record is found by the scan.
proof fn lemma_missing_count_positive_finds(ms: Seq<RecordModel>, g: Seq<u8>)
    requires
        missing_id_count(ms, g) >= 1,
    ensures
        find_missing(ms, g) is Some,
{
    lemma_find_missing_char(ms, g);
    if find_missing(ms, g) is None {
        lemma_missing_id_count_zero(ms, g);
    }
}

/// A step that resolves a reference to some other identifier leaves this
/// identifier's action and missing counts untouched.
proof fn lemma_step_counts_other(
    orig: Seq<u8>,
    p: int,
    st: EngineModel,
    remap: Seq<(Seq<u8>, RecordModel)>,
    exts: Seq<Seq<u8>>,
    src_root: Seq<u8>,
    export_root: Seq<u8>,
    g: Seq<u8>,
)
    requires
        ref_identifier(orig, p) != g,
    ensures
        ({
            let next = step_ref(orig, p, st, remap, exts, src_root, export_root);
            action_count(next.actions, g) == action_count(st.actions, g) && missing_id_count(
                next.missing,
                g,
            ) == missing_id_count(st.missing, g)
        }),
{
    let gref = ref_identifier(orig, p);
    if remap_lookup(remap, gref) is None {
        match find_missing(st.missing, gref) {
            Option::None => {},
            Option::Some(j) => {
                lemma_find_missing_char(st.missing, gref);
                let next = step_ref(orig, p, st, remap, exts, src_root, export_root);
                lemma_action_count_push(st.actions, next.actions.last(), g);
                lemma_missing_id_count_remove(st.missing, j, g);
            },
        }
    }
}

/// A whole pass never raises an identifier's missing count.
proof fn lemma_run_missing_count_nonincreasing(
    orig: Seq<u8>,
    ps: Seq<int>,
    st: EngineModel,
    remap: Seq<(Seq<u8>, RecordModel)>,
    exts: Seq<Seq<u8>>,
    src_root: Seq<u8>,
    export_root: Seq<u8>,
    g: Seq<u8>,
)
    ensures
        missing_id_count(run_refs(orig, ps, st, remap, exts, src_root, export_root).missing, g)
            <= missing_id_count(st.missing, g),
    decreases ps.len(),
{
    if ps.len() > 0 {
        let next = step_ref(orig, ps[0], st, remap, exts, src_root, export_root);
        assert(missing_id_count(next.missing, g) <= missing_id_count(st.missing, g)) by {
            let gref = ref_identifier(orig, ps[0]);
            if remap_lookup(remap, gref) is None {
                match find_missing(st.missing, gref) {
                    Option::None => {},
                    Option::Some(j) => {
                        lemma_find_missing_char(st.missing, gref);
                        lemma_missing_id_count_remove(st.missing, j, g);
                    },
                }
            }
        }
        lemma_run_missing_count_nonincreasing(
            orig,
            ps.drop_first(),
            next,
            remap,
            exts,
            src_root,
            export_root,
            g,
        );
    }
}

/// Exactly-once copy: an identifier carried by exactly one missing record,
/// not remapped, and actually referenced at one of the scanned positions is
/// materialized exactly once over the pass.
pub proof fn lemma_exactly_once_copy(
    orig: Seq<u8>,
    ps: Seq<int>,
    st: EngineModel,
    remap: Seq<(Seq<u8>, RecordModel)>,
    exts: Seq<Seq<u8>>,
    src_root: Seq<u8>,
    export_root: Seq<u8>,
    g: Seq<u8>,
)
    requires
        missing_id_count(st.missing, g) == 1,
        action_count(st.actions, g) == 0,
        remap_lookup(remap, g) is None,
        exists|k: int| 0 <= k < ps.len() && ref_identifier(orig, #[trigger] ps[k]) == g,
    ensures
        action_count(run_refs(orig, ps, st, remap, exts, src_root, export_root).actions, g) == 1,
    decreases ps.len(),
{
    let next = step_ref(orig, ps[0], st, remap, exts, src_root, export_root);
    let res = run_refs(orig, ps, st, remap, exts, src_root, export_root);
    if ref_identifier(orig, ps[0]) == g {
        lemma_missing_count_positive_finds(st.missing, g);
        let j = find_missing(st.missing, g)->Some_0;
        lemma_find_missing_char(st.missing, g);
        lemma_action_count_push(st.actions, next.actions.last(), g);
        lemma_missing_id_count_remove(st.missing, j, g);
        assert(action_count(next.actions, g) == 1);
        assert(missing_id_count(next.missing, g) == 0);
        lemma_run_copy_budget(
            orig,
            ps.drop_first(),
            next,
            remap,
            exts,
            src_root,
            export_root,
            g,
        );
        lemma_run_missing_count_nonincreasing(
            orig,
            ps.drop_first(),
            next,
            remap,
            exts,
            src_root,
            export_root,
            g,
        );
        lemma_missing_id_count_nonneg(res.missing, g);
    } else {
        lemma_step_counts_other(orig, ps[0], st, remap, exts, src_root, export_root, g);
        let k = choose|k: int| 0 <= k < ps.len() && ref_identifier(orig, #[trigger] ps[k]) == g;
        assert(ps.drop_first()[k - 1] == ps[k]);
        lemma_exactly_once_copy(
            orig,
            ps.drop_first(),
            next,
            remap,
            exts,
            src_root,
            export_root,
            g,
        );
    }
}

/// A pending path is never enqueued twice: distinct worklist paths stay
/// distinct through a whole pass.
pub proof fn lemma_queue_paths_stay_distinct(
    orig: Seq<u8>,
    ps: Seq<int>,
    st: EngineModel,
    remap: Seq<(Seq<u8>, RecordModel)>,
    exts: Seq<Seq<u8>>,
    src_root: Seq<u8>,
    export_root: Seq<u8>,
)
    requires
        queue_paths_distinct(st.queue),
    ensures
        queue_paths_distinct(run_refs(orig, ps, st, remap, exts, src_root, export_root).queue),
    decreases ps.len(),
{
    if ps.len() > 0 {
        let next = step_ref(orig, ps[0], st, remap, exts, src_root, export_root);
        assert(queue_paths_distinct(next.queue)) by {
            if next.queue != st.queue {
                assert(forall|i: int, j: int|
                    0 <= i < j < next.queue.len() && j < st.queue.len() ==> (
                    #[trigger] next.queue[i].path) != (#[trigger] next.queue[j].path));
            }
        }
        lemma_queue_paths_stay_distinct(
            orig,
            ps.drop_first(),
            next,
            remap,
            exts,
            src_root,
            export_root,
        );
    }
}

/// Some destination record shares this record's identity hash.
pub open spec fn has_identity_match(dst: Seq<RecordModel>, r: RecordModel) -> bool {
    exists|j: int| 0 <= j < dst.len() && (#[trigger] dst[j].identity_hash) == r.identity_hash
}

/// Every source record has an identity match in the destination set.
pub open spec fn identity_covered(src: Seq<RecordModel>, dst: Seq<RecordModel>) -> bool {
    forall|i: int| 0 <= i < src.len() ==> has_identity_match(dst, #[trigger] src[i])
}

/// A source record matched by identity hash somewhere in the destination
/// set is never classified missing.
pub proof fn lemma_identity_match_not_missing(dst: Seq<RecordModel>, r: RecordModel)
    requires
        has_identity_match(dst, r),
    ensures
        !(classify(dst, r) is Missing),
    decreases dst.len(),
{
    if dst[0].identity_hash != r.identity_hash && dst[0].content_hash != r.content_hash {
        let j = choose|j: int|
            0 <= j < dst.len() && (#[trigger] dst[j].identity_hash) == r.identity_hash;
        assert(dst.drop_first()[j - 1].identity_hash == r.identity_hash);
        lemma_identity_match_not_missing(dst.drop_first(), r);
    }
}

/// When the scan's first match of either kind is an identity match, the
/// record is classified present.
pub proof fn lemma_first_match_is_identity_present(dst: Seq<RecordModel>, r: RecordModel, j: int)
    requires
        0 <= j < dst.len(),
        dst[j].identity_hash == r.identity_hash,
        forall|k: int|
            0 <= k < j ==> (#[trigger] dst[k].identity_hash) != r.identity_hash
                && dst[k].content_hash != r.content_hash,
    ensures
        classify(dst, r) is Present,
    decreases j,
{
    if j > 0 {
        lemma_first_match_is_identity_present(dst.drop_first(), r, j - 1);
    }
}

proof fn lemma_missing_model_ids(src: Seq<RecordModel>, dst: Seq<RecordModel>, g: Seq<u8>)
    requires
        forall|m: int| 0 <= m < src.len() ==> (#[trigger] src[m].identifier) != g,
    ensures
        !missing_has_id(missing_model(src, dst), g),
    decreases src.len(),
{
    if src.len() > 0 {
        lemma_missing_model_ids(src.drop_last(), dst, g);
        let mm = missing_model(src, dst);
        let prev = missing_model(src.drop_last(), dst);
        assert(forall|k: int| 0 <= k < prev.len() ==> (#[trigger] prev[k].identifier) != g);
        assert(forall|k: int| 0 <= k < mm.len() ==> (#[trigger] mm[k].identifier) != g);
    }
}

proof fn lemma_remap_model_keys(src: Seq<RecordModel>, dst: Seq<RecordModel>, g: Seq<u8>)
    requires
        forall|m: int| 0 <= m < src.len() ==> (#[trigger] src[m].identifier) != g,
    ensures
        !remap_has_key(remap_model(src, dst), g),
    decreases src.len(),
{
    if src.len() > 0 {
        lemma_remap_model_keys(src.drop_last(), dst, g);
        let rm = remap_model(src, dst);
        let prev = remap_model(src.drop_last(), dst);
        assert(forall|k: int| 0 <= k < prev.len() ==> (#[trigger] prev[k].0) != g);
        assert(forall|k: int| 0 <= k < rm.len() ==> (#[trigger] rm[k].0) != g);
    }
}

/// Remap precedence: a source record classified present — in particular one
/// whose identity hash matches before any content match — appears neither
/// in the missing set nor as a remap key, provided source identifiers are
/// unique.
pub proof fn lemma_remap_precedence(src: Seq<RecordModel>, dst: Seq<RecordModel>, i: int)
    requires
        unique_identifiers(src),
        0 <= i < src.len(),
        classify(dst, src[i]) is Present,
    ensures
        !missing_has_id(missing_model(src, dst), src[i].identifier),
        !remap_has_key(remap_model(src, dst), src[i].identifier),
    decreases src.len(),
{
    let g = src[i].identifier;
    if i == src.len() - 1 {
        assert(forall|m: int|
            0 <= m < src.drop_last().len() ==> (#[trigger] src.drop_last()[m].identifier) != g);
        lemma_missing_model_ids(src.drop_last(), dst, g);
        lemma_remap_model_keys(src.drop_last(), dst, g);
        let mm = missing_model(src, dst);
        let prev = missing_model(src.drop_last(), dst);
        assert(mm == prev);
        let rm = remap_model(src, dst);
        assert(rm == remap_model(src.drop_last(), dst));
    } else {
        assert(unique_identifiers(src.drop_last()));
        assert(src.drop_last()[i] == src[i]);
        lemma_remap_precedence(src.drop_last(), dst, i);
        let prev_m = missing_model(src.drop_last(), dst);
        let prev_r = remap_model(src.drop_last(), dst);
        let mm = missing_model(src, dst);
        let rm = remap_model(src, dst);
        assert(src.last().identifier != g);
        assert(forall|k: int|
            0 <= k < mm.len() ==> (#[trigger] mm[k]) == if k < prev_m.len() {
                prev_m[k]
            } else {
                src.last()
            });
        assert(forall|k: int|
            0 <= k < rm.len() ==> (#[trigger] rm[k]).0 == if k < prev_r.len() {
                prev_r[k].0
            } else {
                src.last().identifier
            });
    }
}

/// When every source record has an identity match in the effective
/// destination set, reconciliation finds nothing missing.
pub proof fn lemma_identity_covered_missing_empty(src: Seq<RecordModel>, dst: Seq<RecordModel>)
    requires
        identity_covered(src, dst),
    ensures
        missing_model(src, dst).len() == 0,
    decreases src.len(),
{
    if src.len() > 0 {
        assert forall|i: int| 0 <= i < src.drop_last().len() implies has_identity_match(
            dst,
            #[trigger] src.drop_last()[i],
        ) by {
            assert(src.drop_last()[i] == src[i]);
            assert(has_identity_match(dst, src[i]));
        }
        lemma_identity_covered_missing_empty(src.drop_last(), dst);
        assert(src.last() == src[src.len() - 1]);
        assert(has_identity_match(dst, src.last()));
        lemma_identity_match_not_missing(dst, src.last());
    }
}

/// With nothing missing, a whole pass emits no action, enqueues nothing,
/// and leaves the missing set empty: the engine is idempotent but for the
/// in-place rewrite of remapped references.
pub proof fn lemma_no_missing_no_actions(
    orig: Seq<u8>,
    ps: Seq<int>,
    st: EngineModel,
    remap: Seq<(Seq<u8>, RecordModel)>,
    exts: Seq<Seq<u8>>,
    src_root: Seq<u8>,
    export_root: Seq<u8>,
)
    requires
        st.missing.len() == 0,
    ensures
        ({
            let res = run_refs(orig, ps, st, remap, exts, src_root, export_root);
            res.missing == st.missing && res.queue == st.queue && res.actions == st.actions
        }),
    decreases ps.len(),
{
    if ps.len() > 0 {
        let next = step_ref(orig, ps[0], st, remap, exts, src_root, export_root);
        lemma_no_missing_no_actions(
            orig,
            ps.drop_first(),
            next,
            remap,
            exts,
            src_root,
            export_root,
        );
    }
}

/// With nothing missing and nothing remapped, a whole pass changes nothing
/// at all: the converted text equals the original.
pub proof fn lemma_no_work_changes_nothing(
    orig: Seq<u8>,
    ps: Seq<int>,
    st: EngineModel,
    remap: Seq<(Seq<u8>, RecordModel)>,
    exts: Seq<Seq<u8>>,
    src_root: Seq<u8>,
    export_root: Seq<u8>,
)
    requires
        st.missing.len() == 0,
        remap.len() == 0,
    ensures
        run_refs(orig, ps, st, remap, exts, src_root, export_root) == st,
    decreases ps.len(),
{
    if ps.len() > 0 {
        let next = step_ref(orig, ps[0], st, remap, exts, src_root, export_root);
        assert(next =~= st);
        lemma_no_work_changes_nothing(
            orig,
            ps.drop_first(),
            next,
            remap,
            exts,
            src_root,
            export_root,
        );
    }
}

/// Splicing a replacement of the span's own length changes exactly that
/// span and nothing else.
pub proof fn lemma_splice_pointwise(s: Seq<u8>, at: int, r: Seq<u8>)
    requires
        0 <= at,
        at + r.len() <= s.len(),
    ensures
        splice(s, at, r).len() == s.len(),
        forall|k: int|
            0 <= k < s.len() ==> (#[trigger] splice(s, at, r)[k]) == if at <= k < at + r.len() {
                r[k - at]
            } else {
                s[k]
            },
{
}

/// Rewrite correctness for a remapped reference: the replacement lands at
/// the reference's exact offset, the identifier span carries exactly the
/// destination identifier, every byte outside it is untouched, and the
/// text's length does not change.
pub proof fn lemma_remapped_reference_rewrite(
    orig: Seq<u8>,
    p: int,
    st: EngineModel,
    remap: Seq<(Seq<u8>, RecordModel)>,
    exts: Seq<Seq<u8>>,
    src_root: Seq<u8>,
    export_root: Seq<u8>,
)
    requires
        is_marker_at(orig, p),
        st.text.len() == orig.len(),
        remap_values_wf(remap),
        remap_lookup(remap, ref_identifier(orig, p)) is Some,
    ensures
        ({
            let d = remap_lookup(remap, ref_identifier(orig, p))->Some_0;
            let next = step_ref(orig, p, st, remap, exts, src_root, export_root);
            next.text.len() == st.text.len() && next.text.subrange(p + 6, p + 38) == d.identifier
                && (forall|k: int|
                0 <= k < st.text.len() && !(p + 6 <= k < p + 38) ==> next.text[k] == st.text[k])
                && next.missing == st.missing && next.queue == st.queue && next.actions
                == st.actions
        }),
{
    let d = remap_lookup(remap, ref_identifier(orig, p))->Some_0;
    lemma_remap_lookup_wf(remap, ref_identifier(orig, p));
    lemma_splice_pointwise(st.text, p + 6, d.identifier);
    let next = step_ref(orig, p, st, remap, exts, src_root, export_root);
    assert(next.text.subrange(p + 6, p + 38) =~= d.identifier);
}

/// A looked-up remap target carries a full-length identifier.
proof fn lemma_remap_lookup_wf(t: Seq<(Seq<u8>, RecordModel)>, g: Seq<u8>)
    requires
        remap_values_wf(t),
        remap_lookup(t, g) is Some,
    ensures
        (remap_lookup(t, g)->Some_0).identifier.len() == 32,
    decreases t.len(),
{
    if t.len() > 0 {
        assert(t[0].1.identifier.len() == 32);
        if t[0].0 != g {
            assert forall|i: int| 0 <= i < t.drop_first().len() implies (
            #[trigger] t.drop_first()[i].1.identifier.len()) == 32 by {
                assert(t.drop_first()[i] == t[i + 1]);
                assert(t[i + 1].1.identifier.len() == 32);
            }
            lemma_remap_lookup_wf(t.drop_first(), g);
        }
    }
}

/// A whole pass never changes the text's length: every rewrite replaces a
/// 32-byte identifier span with a 32-byte identifier.
pub proof fn lemma_run_preserves_text_len(
    orig: Seq<u8>,
    ps: Seq<int>,
    st: EngineModel,
    remap: Seq<(Seq<u8>, RecordModel)>,
    exts: Seq<Seq<u8>>,
    src_root: Seq<u8>,
    export_root: Seq<u8>,
)
    requires
        remap_values_wf(remap),
        st.text.len() == orig.len(),
        forall|k: int| 0 <= k < ps.len() ==> is_marker_at(orig, #[trigger] ps[k]),
    ensures
        run_refs(orig, ps, st, remap, exts, src_root, export_root).text.len() == orig.len(),
    decreases ps.len(),
{
    if ps.len() > 0 {
        let next = step_ref(orig, ps[0], st, remap, exts, src_root, export_root);
        assert(next.text.len() == orig.len()) by {
            let g = ref_identifier(orig, ps[0]);
            if remap_lookup(remap, g) is Some {
                lemma_remap_lookup_wf(remap, g);
                lemma_splice_pointwise(st.text, ps[0] + 6, (remap_lookup(remap, g)->Some_0).identifier);
            }
        }
        assert(forall|k: int|
            0 <= k < ps.drop_first().len() ==> (#[trigger] ps.drop_first()[k]) == ps[k + 1]);
        lemma_run_preserves_text_len(
            orig,
            ps.drop_first(),
            next,
            remap,
            exts,
            src_root,
            export_root,
        );
    }
}

/// A remap table built by reconciliation carries only destination records,
/// so its targets are well-formed whenever the destination records are.
pub proof fn lemma_remap_model_values_wf(src: Seq<RecordModel>, dst: Seq<RecordModel>)
    requires
        forall|j: int| 0 <= j < dst.len() ==> record_wf(#[trigger] dst[j]),
    ensures
        remap_values_wf(remap_model(src, dst)),
    decreases src.len(),
{
    if src.len() > 0 {
        lemma_remap_model_values_wf(src.drop_last(), dst);
        let rm = remap_model(src, dst);
        let prev = remap_model(src.drop_last(), dst);
        match classify(dst, src.last()) {
            Classification::Remapped(d) => {
                lemma_classify_remapped_is_member(dst, src.last());
                assert(forall|k: int|
                    0 <= k < rm.len() ==> (#[trigger] rm[k]) == if k < prev.len() {
                        prev[k]
                    } else {
                        (src.last().identifier, d)
                    });
            },
            _ => {},
        }
    }
}

/// A record a source record is remapped to is one of the destination records.
proof fn lemma_classify_remapped_is_member(dst: Seq<RecordModel>, r: RecordModel)
    requires
        classify(dst, r) is Remapped,
    ensures
        exists|j: int|
            0 <= j < dst.len() && (#[trigger] dst[j]) == classify(dst, r)->Remapped_0,
    decreases dst.len(),
{
    if dst[0].identity_hash != r.identity_hash && dst[0].content_hash != r.content_hash {
        lemma_classify_remapped_is_member(dst.drop_first(), r);
        let j = choose|j: int|
            0 <= j < dst.drop_first().len() && (#[trigger] dst.drop_first()[j]) == classify(
                dst.drop_first(),
                r,
            )->Remapped_0;
        assert(dst[j + 1] == classify(dst, r)->Remapped_0);
    }
}

/// A missing set built by reconciliation carries only source records, so its
/// directories lie under the source root whenever the source records' do.
pub proof fn lemma_missing_model_dirs_ok(
    src: Seq<RecordModel>,
    dst: Seq<RecordModel>,
    src_root: Seq<u8>,
)
    requires
        forall|i: int|
            0 <= i < src.len() ==> is_dir_prefix_of(src_root, (#[trigger] src[i]).directory),
    ensures
        missing_dirs_ok(missing_model(src, dst), src_root),
    decreases src.len(),
{
    if src.len() > 0 {
        assert forall|i: int| 0 <= i < src.drop_last().len() implies is_dir_prefix_of(
            src_root,
            (#[trigger] src.drop_last()[i]).directory,
        ) by {
            assert(src.drop_last()[i] == src[i]);
        }
        lemma_missing_model_dirs_ok(src.drop_last(), dst, src_root);
        let mm = missing_model(src, dst);
        let prev = missing_model(src.drop_last(), dst);
        assert(src.last() == src[src.len() - 1]);
        assert(forall|k: int|
            0 <= k < mm.len() ==> (#[trigger] mm[k]) == if k < prev.len() {
                prev[k]
            } else {
                src.last()
            });
    }
}

/// Directory mirroring: a dependency whose source directory is the source
/// root plus a relative suffix is sent to the export root plus exactly that
/// suffix.
pub proof fn lemma_directory_mirroring(src_root: Seq<u8>, sub: Seq<u8>, export_root: Seq<u8>)
    requires
        src_root.len() > 0,
        src_root[src_root.len() - 1] != SLASH,
        export_root.len() > 0,
        export_root[export_root.len() - 1] != SLASH,
        sub.len() > 0,
        sub[0] != SLASH,
    ensures
        mirror_dir_spec(src_root + seq![SLASH] + sub, src_root, export_root) == export_root + seq![
            SLASH,
        ] + sub,
{
    let dir = src_root + seq![SLASH] + sub;
    assert(dir.skip(src_root.len() as int) =~= seq![SLASH] + sub);
    assert((seq![SLASH] + sub).skip(1) =~= sub);
    assert(strip_dir_prefix_spec(dir, src_root) == sub);
}

} // verus!
