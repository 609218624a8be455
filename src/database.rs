//! Commands run against a database.
use vstd::prelude::*;
use crate::document::{lookup, Bson, Document};
use crate::error::{InvalidParamsError, MongoError};

verus! {

/// The collection that a `find`, `aggregate` or `listIndexes` command names:
/// the first of these keys whose value is a string.
pub open spec fn command_collection(d: Seq<(Seq<char>, Bson)>) -> Option<Seq<char>> {
    match lookup(d, "find"@) {
        Some(Bson::String(s)) => Some(s),
        _ => match lookup(d, "aggregate"@) {
            Some(Bson::String(s)) => Some(s),
            _ => match lookup(d, "listIndexes"@) {
                Some(Bson::String(s)) => Some(s),
                _ => None,
            },
        },
    }
}

/// The collection that a batched command works on.
pub fn get_coll_name_from_doc(doc: &Document) -> (r: Result<String, MongoError>)
    ensures
        match command_collection(doc@) {
            Some(s) => r matches Ok(x) && x@ == s,
            None => r matches Err(MongoError::InvalidParams(_)),
        },
{
    if let Ok(s) = doc.as_string("find") {
        return Ok(s);
    }
    if let Ok(s) = doc.as_string("aggregate") {
        return Ok(s);
    }
    if let Ok(s) = doc.as_string("listIndexes") {
        return Ok(s);
    }
    Err(MongoError::InvalidParams(InvalidParamsError))
}

} // verus!
