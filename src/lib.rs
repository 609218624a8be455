//! A MongoDB client core: a verified BSON document model and codec, the
//! decision logic of plain, tailing and batched cursors, and the flag and
//! error tables of the native driver.
use vstd::prelude::*;
use crate::document::Document;
use crate::flags::{Flags, QueryFlag};
use crate::read_prefs::ReadMode;

pub mod bsonc;
pub mod bytes;
pub mod codec;
pub mod collection;
pub mod cursor;
pub mod database;
pub mod document;
pub mod error;
pub mod flags;
pub mod oid;
pub mod read_prefs;
pub mod write_concern;

verus! {

/// Options of command and find operations.
pub struct CommandAndFindOptions {
    /// Flags to use.
    pub query_flags: Flags<QueryFlag>,
    /// Number of documents to skip, zero to ignore.
    pub skip: u32,
    /// Largest number of documents to return, zero to ignore.
    pub limit: u32,
    /// Number of documents in each batch, zero to ignore.
    pub batch_size: u32,
    /// Fields to return; not all commands support this.
    pub fields: Option<Document>,
    /// How reads are dispatched, where not the default.
    pub read_prefs: Option<ReadMode>,
}

impl CommandAndFindOptions {
    /// No flags, no skip, limit or batch size, all fields, default reads.
    pub fn default() -> (r: CommandAndFindOptions)
        ensures
            r.query_flags@ == Set::<QueryFlag>::empty(),
            r.skip == 0 && r.limit == 0 && r.batch_size == 0,
            r.fields is None,
            r.read_prefs is None,
    {
        CommandAndFindOptions {
            query_flags: Flags::new(),
            skip: 0,
            limit: 0,
            batch_size: 0,
            fields: None,
            read_prefs: None,
        }
    }

    /// The default options, returning only `fields`.
    pub fn with_fields(fields: Document) -> (r: CommandAndFindOptions)
        ensures
            r.query_flags@ == Set::<QueryFlag>::empty(),
            r.skip == 0 && r.limit == 0 && r.batch_size == 0,
            r.fields == Some(fields),
            r.read_prefs is None,
    {
        CommandAndFindOptions {
            query_flags: Flags::new(),
            skip: 0,
            limit: 0,
            batch_size: 0,
            fields: Some(fields),
            read_prefs: None,
        }
    }
}

} // verus!
