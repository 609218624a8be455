//! Options of collection operations.
use vstd::prelude::*;
use crate::document::Document;
use crate::flags::{Flags, InsertFlag, QueryFlag, RemoveFlag, UpdateFlag};
use crate::read_prefs::ReadMode;
use crate::write_concern::WriteConcernLevel;

verus! {

/// Options of a tailing query.
#[derive(Clone, Copy, Debug, PartialEq, Eq, Structural)]
pub struct TailOptions {
    /// Milliseconds to wait before checking for new results.
    pub wait_duration_ms: u64,
    /// How many failures in a row are retried before one is reported.
    pub max_retries: u32,
}

impl TailOptions {
    /// Half a second between checks, and five retries.
    pub fn default() -> (r: TailOptions)
        ensures
            r.wait_duration_ms == 500,
            r.max_retries == 5,
    {
        TailOptions { wait_duration_ms: 500, max_retries: 5 }
    }
}

/// Options of an aggregate operation.
pub struct AggregateOptions {
    /// Flags to use.
    pub query_flags: Flags<QueryFlag>,
    /// Options of the aggregation.
    pub options: Option<Document>,
    /// How reads are dispatched, where not the default.
    pub read_prefs: Option<ReadMode>,
}

impl AggregateOptions {
    /// No flags, no options, default reads.
    pub fn default() -> (r: AggregateOptions)
        ensures
            r.query_flags@ == Set::<QueryFlag>::empty(),
            r.options is None,
            r.read_prefs is None,
    {
        AggregateOptions { query_flags: Flags::new(), options: None, read_prefs: None }
    }
}

/// Options of a bulk operation.
pub struct BulkOperationOptions {
    /// Whether the operations must run in order.
    pub ordered: bool,
    pub write_concern: WriteConcernLevel,
}

impl BulkOperationOptions {
    /// Unordered, with the default write concern.
    pub fn default() -> (r: BulkOperationOptions)
        ensures
            !r.ordered,
            r.write_concern == WriteConcernLevel::Default,
    {
        BulkOperationOptions { ordered: false, write_concern: WriteConcernLevel::Default }
    }
}

/// Options of a find-and-modify operation.
pub struct FindAndModifyOptions {
    /// Sort order of the query.
    pub sort: Option<Document>,
    /// Whether the new version of the document is returned.
    pub new: bool,
    /// The fields to return.
    pub fields: Option<Document>,
}

impl FindAndModifyOptions {
    /// No sort, the old version, all fields.
    pub fn default() -> (r: FindAndModifyOptions)
        ensures
            r.sort is None,
            !r.new,
            r.fields is None,
    {
        FindAndModifyOptions { sort: None, new: false, fields: None }
    }
}

/// What a find-and-modify operation does to the matching document.
pub enum FindAndModifyOperation<'a> {
    Update(&'a Document),
    Upsert(&'a Document),
    Remove,
}

/// Options of a count operation.
pub struct CountOptions {
    /// Flags to use.
    pub query_flags: Flags<QueryFlag>,
    /// Number of results to skip, zero to ignore.
    pub skip: u32,
    /// Largest number of results, zero to ignore.
    pub limit: u32,
    /// Extra keys for the count.
    pub opts: Option<Document>,
    /// How reads are dispatched, where not the default.
    pub read_prefs: Option<ReadMode>,
}

impl CountOptions {
    /// No flags, no skip or limit, no extra keys, default reads.
    pub fn default() -> (r: CountOptions)
        ensures
            r.query_flags@ == Set::<QueryFlag>::empty(),
            r.skip == 0 && r.limit == 0,
            r.opts is None,
            r.read_prefs is None,
    {
        CountOptions { query_flags: Flags::new(), skip: 0, limit: 0, opts: None, read_prefs: None }
    }
}

/// Options of an insert operation.
pub struct InsertOptions {
    pub insert_flags: Flags<InsertFlag>,
    pub write_concern: WriteConcernLevel,
}

impl InsertOptions {
    /// No flags, the default write concern.
    pub fn default() -> (r: InsertOptions)
        ensures
            r.insert_flags@ == Set::<InsertFlag>::empty(),
            r.write_concern == WriteConcernLevel::Default,
    {
        InsertOptions { insert_flags: Flags::new(), write_concern: WriteConcernLevel::Default }
    }
}

/// Options of a remove operation.
pub struct RemoveOptions {
    pub remove_flags: Flags<RemoveFlag>,
    pub write_concern: WriteConcernLevel,
}

impl RemoveOptions {
    /// No flags, the default write concern.
    pub fn default() -> (r: RemoveOptions)
        ensures
            r.remove_flags@ == Set::<RemoveFlag>::empty(),
            r.write_concern == WriteConcernLevel::Default,
    {
        RemoveOptions { remove_flags: Flags::new(), write_concern: WriteConcernLevel::Default }
    }
}

/// Options of an update operation.
pub struct UpdateOptions {
    pub update_flags: Flags<UpdateFlag>,
    pub write_concern: WriteConcernLevel,
}

impl UpdateOptions {
    /// No flags, the default write concern.
    pub fn default() -> (r: UpdateOptions)
        ensures
            r.update_flags@ == Set::<UpdateFlag>::empty(),
            r.write_concern == WriteConcernLevel::Default,
    {
        UpdateOptions { update_flags: Flags::new(), write_concern: WriteConcernLevel::Default }
    }
}

} // verus!
