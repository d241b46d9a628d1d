//! Reconciliation stage.
//!
//! Source records are compared against the effective destination set (the
//! destination tree's own records plus the auxiliary shared-cache records
//! that do not collide with them by display name).  Scanning the effective
//! set in order, the first identity or content match wins: an identity match
//! means the asset is already present, a content match means the same
//! content lives in the destination under another identifier and the source
//! identifier is remapped to it, and a source record matching nothing is
//! missing and must be copied on demand.

use vstd::prelude::*;

use crate::bytes::bytes_eq;
use crate::bytes::copy_bytes;
use crate::record::MetaRecord;
use crate::record::RecordModel;

verus! {

impl DeepView for MetaRecord {
    type V = RecordModel;

    open spec fn deep_view(&self) -> RecordModel {
        self@
    }
}

/// How one source record stands to the effective destination set.
pub ghost enum Classification {
    /// Some destination record has the same identity hash.
    Present,
    /// The first match is a content match: the same content exists under
    /// the carried destination record's identifier.
    Remapped(RecordModel),
    /// No destination record matches either hash.
    Missing,
}

/// Scan `dst` in order; for each candidate the identity hash is compared
/// before the content hash, and the first match of either kind wins.
pub open spec fn classify(dst: Seq<RecordModel>, r: RecordModel) -> Classification
    decreases dst.len(),
{
    if dst.len() == 0 {
        Classification::Missing
    } else if dst[0].identity_hash == r.identity_hash {
        Classification::Present
    } else if dst[0].content_hash == r.content_hash {
        Classification::Remapped(dst[0])
    } else {
        classify(dst.drop_first(), r)
    }
}

/// The source records classified missing, in source order.
pub open spec fn missing_model(src: Seq<RecordModel>, dst: Seq<RecordModel>) -> Seq<RecordModel>
    decreases src.len(),
{
    if src.len() == 0 {
        Seq::empty()
    } else {
        let prev = missing_model(src.drop_last(), dst);
        if classify(dst, src.last()) is Missing {
            prev.push(src.last())
        } else {
            prev
        }
    }
}

/// The remap entries recorded for the source records classified remapped,
/// in source order: source identifier paired with the matched destination
/// record.
pub open spec fn remap_model(src: Seq<RecordModel>, dst: Seq<RecordModel>) -> Seq<
    (Seq<u8>, RecordModel),
>
    decreases src.len(),
{
    if src.len() == 0 {
        Seq::empty()
    } else {
        let prev = remap_model(src.drop_last(), dst);
        match classify(dst, src.last()) {
            Classification::Remapped(d) => prev.push((src.last().identifier, d)),
            _ => prev,
        }
    }
}

/// Does some record in `rs` carry this display name?
pub open spec fn has_display_name(rs: Seq<RecordModel>, name: Seq<u8>) -> bool {
    exists|i: int| 0 <= i < rs.len() && rs[i].display_name == name
}

/// The cache records that survive the collision filter: those whose display
/// name appears on no destination record.
pub open spec fn cache_filter_model(cache: Seq<RecordModel>, dst: Seq<RecordModel>) -> Seq<
    RecordModel,
>
    decreases cache.len(),
{
    if cache.len() == 0 {
        Seq::empty()
    } else {
        let prev = cache_filter_model(cache.drop_last(), dst);
        if !has_display_name(dst, cache.last().display_name) {
            prev.push(cache.last())
        } else {
            prev
        }
    }
}

/// The effective destination set: the destination's own records followed by
/// the surviving cache records.
pub open spec fn effective_destination_model(
    dst: Seq<RecordModel>,
    cache: Seq<RecordModel>,
) -> Seq<RecordModel> {
    dst + cache_filter_model(cache, dst)
}

/// One remap entry: a source identifier and the destination record whose
/// identifier replaces it.
pub struct RemapEntry {
    pub key: Vec<u8>,
    pub record: MetaRecord,
}

impl View for RemapEntry {
    type V = (Seq<u8>, RecordModel);

    open spec fn view(&self) -> (Seq<u8>, RecordModel) {
        (self.key@, self.record@)
    }
}

impl DeepView for RemapEntry {
    type V = (Seq<u8>, RecordModel);

    open spec fn deep_view(&self) -> (Seq<u8>, RecordModel) {
        self@
    }
}

/// First entry of `t` whose key is `g`, if any.
pub open spec fn remap_lookup(t: Seq<(Seq<u8>, RecordModel)>, g: Seq<u8>) -> Option<RecordModel>
    decreases t.len(),
{
    if t.len() == 0 {
        Option::None
    } else if t[0].0 == g {
        Option::Some(t[0].1)
    } else {
        remap_lookup(t.drop_first(), g)
    }
}

/// The table mapping source identifiers to the destination records they
/// were remapped to.  Filled once by reconciliation, read-only afterwards.
pub struct RemapTable {
    pub entries: Vec<RemapEntry>,
}

impl View for RemapTable {
    type V = Seq<(Seq<u8>, RecordModel)>;

    open spec fn view(&self) -> Seq<(Seq<u8>, RecordModel)> {
        self.entries.deep_view()
    }
}

impl RemapTable {
    /// An empty table.
    pub fn new() -> (r: RemapTable)
        ensures
            r@ == Seq::<(Seq<u8>, RecordModel)>::empty(),
    {
        let r = RemapTable { entries: Vec::new() };
        assert(r@ =~= Seq::<(Seq<u8>, RecordModel)>::empty());
        r
    }

    /// Record one remap entry.
    pub fn insert(&mut self, key: Vec<u8>, record: MetaRecord)
        ensures
            final(self)@ == old(self)@.push((key@, record@)),
    {
        let ghost pre = self@;
        let ghost k = key@;
        let ghost d = record@;
        self.entries.push(RemapEntry { key, record });
        assert(self@ =~= pre.push((k, d)));
    }

    /// Index of the entry for `g`, if the identifier was remapped.
    pub fn lookup_index(&self, g: &Vec<u8>) -> (r: Option<usize>)
        ensures
            match r {
                Some(j) => j < self.entries.len() && self.entries@[j as int]@.0 == g@
                    && remap_lookup(self@, g@) == Option::Some(self.entries@[j as int]@.1),
                None => remap_lookup(self@, g@) is None,
            },
    {
        let mut i: usize = 0;
        assert(self@.skip(0) =~= self@);
        while i < self.entries.len()
            invariant
                i <= self.entries.len(),
                remap_lookup(self@, g@) == remap_lookup(self@.skip(i as int), g@),
            decreases self.entries.len() - i,
        {
            assert(self@.skip(i as int)[0] == self@[i as int]);
            if bytes_eq(&self.entries[i].key, g) {
                return Some(i);
            }
            assert(self@.skip(i as int).drop_first() =~= self@.skip(i + 1 as int));
            i = i + 1;
        }
        assert(self@.skip(self.entries.len() as int) =~= Seq::<(Seq<u8>, RecordModel)>::empty());
        None
    }
}

/// How one source record classifies, as the scan finds it.
pub enum ClassOutcome {
    Present,
    Remapped(usize),
    Missing,
}

/// Classify one source record against the effective destination set.
pub fn classify_record(dst: &Vec<MetaRecord>, r: &MetaRecord) -> (c: ClassOutcome)
    ensures
        match c {
            ClassOutcome::Present => classify(dst.deep_view(), r@) is Present,
            ClassOutcome::Remapped(j) => j < dst.len() && classify(dst.deep_view(), r@)
                == Classification::Remapped(dst.deep_view()[j as int]),
            ClassOutcome::Missing => classify(dst.deep_view(), r@) is Missing,
        },
{
    let ghost dv = dst.deep_view();
    let mut i: usize = 0;
    assert(dv.skip(0) =~= dv);
    while i < dst.len()
        invariant
            i <= dst.len(),
            dv == dst.deep_view(),
            classify(dv, r@) == classify(dv.skip(i as int), r@),
        decreases dst.len() - i,
    {
        assert(dv.skip(i as int)[0] == dv[i as int]);
        if dst[i].identity_hash == r.identity_hash {
            return ClassOutcome::Present;
        }
        if dst[i].content_hash == r.content_hash {
            return ClassOutcome::Remapped(i);
        }
        assert(dv.skip(i as int).drop_first() =~= dv.skip(i + 1 as int));
        i = i + 1;
    }
    assert(dv.skip(dst.len() as int) =~= Seq::<RecordModel>::empty());
    ClassOutcome::Missing
}

/// Drop every cache record whose display name collides with a destination
/// record: the destination takes precedence over the cache.
pub fn filter_cache_records(cache: &Vec<MetaRecord>, dst: &Vec<MetaRecord>) -> (r: Vec<MetaRecord>)
    ensures
        r.deep_view() == cache_filter_model(cache.deep_view(), dst.deep_view()),
{
    let ghost cv = cache.deep_view();
    let ghost dv = dst.deep_view();
    let mut r: Vec<MetaRecord> = Vec::new();
    let mut i: usize = 0;
    assert(r.deep_view() =~= cache_filter_model(cv.take(0), dv));
    while i < cache.len()
        invariant
            i <= cache.len(),
            cv == cache.deep_view(),
            dv == dst.deep_view(),
            r.deep_view() == cache_filter_model(cv.take(i as int), dv),
        decreases cache.len() - i,
    {
        assert(cv.take(i + 1 as int).drop_last() =~= cv.take(i as int));
        assert(cv.take(i + 1 as int).last() == cv[i as int]);
        let mut collides = false;
        let mut j: usize = 0;
        while j < dst.len()
            invariant
                i < cache.len(),
                cv == cache.deep_view(),
                j <= dst.len(),
                dv == dst.deep_view(),
                collides == has_display_name(dv.take(j as int), cache@[i as int]@.display_name),
            decreases dst.len() - j,
        {
            assert(dv.take(j + 1 as int).last() == dv[j as int]);
            if bytes_eq(&dst[j].display_name, &cache[i].display_name) {
                assert(dv[j as int].display_name == cache@[i as int]@.display_name);
                collides = true;
            }
            assert(forall|k: int| 0 <= k < j ==> dv.take(j + 1 as int)[k] == dv.take(j as int)[k]);
            j = j + 1;
        }
        assert(dv.take(dst.len() as int) =~= dv);
        if !collides {
            let ghost pre = r.deep_view();
            r.push(cache[i].duplicate());
            assert(r.deep_view() =~= pre.push(cv[i as int]));
        }
        i = i + 1;
    }
    assert(cv.take(cache.len() as int) =~= cv);
    r
}

/// The effective destination set the scan runs against.
pub fn effective_destination(dst: &Vec<MetaRecord>, cache: &Vec<MetaRecord>) -> (r: Vec<MetaRecord>)
    ensures
        r.deep_view() == effective_destination_model(dst.deep_view(), cache.deep_view()),
{
    let filtered = filter_cache_records(cache, dst);
    let mut r: Vec<MetaRecord> = Vec::new();
    let mut i: usize = 0;
    while i < dst.len()
        invariant
            i <= dst.len(),
            r.deep_view() == dst.deep_view().take(i as int),
        decreases dst.len() - i,
    {
        let ghost pre = r.deep_view();
        r.push(dst[i].duplicate());
        assert(r.deep_view() =~= pre.push(dst.deep_view()[i as int]));
        assert(r.deep_view() =~= dst.deep_view().take(i + 1 as int));
        i = i + 1;
    }
    assert(r.deep_view() =~= dst.deep_view());
    let mut i: usize = 0;
    while i < filtered.len()
        invariant
            i <= filtered.len(),
            r.deep_view() == dst.deep_view() + filtered.deep_view().take(i as int),
        decreases filtered.len() - i,
    {
        let ghost pre = r.deep_view();
        r.push(filtered[i].duplicate());
        assert(r.deep_view() =~= pre.push(filtered.deep_view()[i as int]));
        assert(r.deep_view() =~= dst.deep_view() + filtered.deep_view().take(i + 1 as int));
        i = i + 1;
    }
    assert(filtered.deep_view().take(filtered.len() as int) =~= filtered.deep_view());
    assert(r.deep_view() =~= dst.deep_view() + filtered.deep_view());
    r
}

/// Classify every source record against the effective destination set,
/// producing the remap table and the missing set.
pub fn reconcile(src: &Vec<MetaRecord>, dst_effective: &Vec<MetaRecord>) -> (r: (
    RemapTable,
    Vec<MetaRecord>,
))
    ensures
        r.0@ == remap_model(src.deep_view(), dst_effective.deep_view()),
        r.1.deep_view() == missing_model(src.deep_view(), dst_effective.deep_view()),
{
    let ghost sv = src.deep_view();
    let ghost dv = dst_effective.deep_view();
    let mut remap = RemapTable::new();
    let mut missing: Vec<MetaRecord> = Vec::new();
    let mut i: usize = 0;
    assert(remap@ =~= remap_model(sv.take(0), dv));
    assert(missing.deep_view() =~= missing_model(sv.take(0), dv));
    while i < src.len()
        invariant
            i <= src.len(),
            sv == src.deep_view(),
            dv == dst_effective.deep_view(),
            remap@ == remap_model(sv.take(i as int), dv),
            missing.deep_view() == missing_model(sv.take(i as int), dv),
        decreases src.len() - i,
    {
        assert(sv.take(i + 1 as int).drop_last() =~= sv.take(i as int));
        assert(sv.take(i + 1 as int).last() == sv[i as int]);
        match classify_record(dst_effective, &src[i]) {
            ClassOutcome::Present => {},
            ClassOutcome::Remapped(j) => {
                remap.insert(copy_bytes(&src[i].identifier), dst_effective[j].duplicate());
            },
            ClassOutcome::Missing => {
                let ghost pre = missing.deep_view();
                missing.push(src[i].duplicate());
                assert(missing.deep_view() =~= pre.push(sv[i as int]));
            },
        }
        i = i + 1;
    }
    assert(sv.take(src.len() as int) =~= sv);
    (remap, missing)
}

} // verus!
