//! One sidecar metadata record.
//!
//! The collection scanner parses each sidecar file into a `MetaRecord`: the
//! asset's identifier, its two hashes, the file name, and the absolute source
//! directory.  The two hashes arrive as machine words computed by the
//! scanner; the engine only ever compares them for equality.

use vstd::prelude::*;

use crate::bytes::concat_bytes;
use crate::bytes::copy_bytes;
use crate::paths::join_path;
use crate::paths::join_path_spec;

verus! {

/// Length of an asset identifier: a 32-character hexadecimal token.
pub const IDENTIFIER_LEN: usize = 32;

/// Mathematical view of a `MetaRecord`.
pub ghost struct RecordModel {
    pub identifier: Seq<u8>,
    pub identity_hash: u64,
    pub content_hash: u64,
    pub display_name: Seq<u8>,
    pub directory: Seq<u8>,
}

/// In-memory form of one sidecar metadata record.
pub struct MetaRecord {
    /// Fixed-length token identifying this asset instance.
    pub identifier: Vec<u8>,
    /// Hash over the record's defining fields; equal hashes mean the same
    /// asset instance.
    pub identity_hash: u64,
    /// Hash over the asset's content only; equal hashes with different
    /// identifiers mean the same content re-imported under a new identifier.
    pub content_hash: u64,
    /// File name of the asset's primary file.
    pub display_name: Vec<u8>,
    /// Absolute directory of the asset's primary file, in the source tree.
    pub directory: Vec<u8>,
}

impl View for MetaRecord {
    type V = RecordModel;

    open spec fn view(&self) -> RecordModel {
        RecordModel {
            identifier: self.identifier@,
            identity_hash: self.identity_hash,
            content_hash: self.content_hash,
            display_name: self.display_name@,
            directory: self.directory@,
        }
    }
}

/// A well-formed record carries a full-length identifier.
pub open spec fn record_wf(r: RecordModel) -> bool {
    r.identifier.len() == IDENTIFIER_LEN
}

/// The suffix that turns a primary file path into its sidecar path.
pub open spec fn meta_suffix() -> Seq<u8> {
    seq![46u8, 109u8, 101u8, 116u8, 97u8]  // ".meta"

}

/// Path of the record's primary file in the source tree.
pub open spec fn primary_path_spec(r: RecordModel) -> Seq<u8> {
    join_path_spec(r.directory, r.display_name)
}

/// Path of the record's sidecar file in the source tree.
pub open spec fn sidecar_path_spec(r: RecordModel) -> Seq<u8> {
    primary_path_spec(r) + meta_suffix()
}

/// The `.meta` suffix as a byte vector.
pub fn meta_suffix_vec() -> (r: Vec<u8>)
    ensures
        r@ == meta_suffix(),
{
    let mut r: Vec<u8> = Vec::new();
    r.push(46);  // .
    r.push(109);  // m
    r.push(101);  // e
    r.push(116);  // t
    r.push(97);  // a
    assert(r@ =~= meta_suffix());
    r
}

/// `p` with the sidecar suffix appended.
pub fn with_meta_suffix(p: &Vec<u8>) -> (r: Vec<u8>)
    ensures
        r@ == p@ + meta_suffix(),
{
    let suffix = meta_suffix_vec();
    concat_bytes(p, &suffix)
}

impl MetaRecord {
    /// Path of the primary file in the source tree.
    pub fn primary_path(&self) -> (r: Vec<u8>)
        ensures
            r@ == primary_path_spec(self@),
    {
        join_path(&self.directory, &self.display_name)
    }

    /// Path of the sidecar file in the source tree.
    pub fn sidecar_path(&self) -> (r: Vec<u8>)
        ensures
            r@ == sidecar_path_spec(self@),
    {
        let p = self.primary_path();
        with_meta_suffix(&p)
    }

    /// Path the primary file takes inside the directory `dir`.
    pub fn primary_path_in(&self, dir: &Vec<u8>) -> (r: Vec<u8>)
        ensures
            r@ == join_path_spec(dir@, self@.display_name),
    {
        join_path(dir, &self.display_name)
    }

    /// Path the sidecar file takes inside the directory `dir`.
    pub fn sidecar_path_in(&self, dir: &Vec<u8>) -> (r: Vec<u8>)
        ensures
            r@ == join_path_spec(dir@, self@.display_name) + meta_suffix(),
    {
        let p = self.primary_path_in(dir);
        with_meta_suffix(&p)
    }

    /// A fresh copy of the record.
    pub fn duplicate(&self) -> (r: MetaRecord)
        ensures
            r@ == self@,
    {
        MetaRecord {
            identifier: copy_bytes(&self.identifier),
            identity_hash: self.identity_hash,
            content_hash: self.content_hash,
            display_name: copy_bytes(&self.display_name),
            directory: copy_bytes(&self.directory),
        }
    }
}

} // verus!
