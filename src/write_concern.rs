//! The acknowledgment that writes wait for.
use vstd::prelude::*;

verus! {

/// Write concern levels; only the default is supported.
#[derive(Clone, Copy, Debug, PartialEq, Eq, Structural)]
pub enum WriteConcernLevel {
    /// Writes block until the server acknowledges them.
    Default,
}

} // verus!
