//! How reads are dispatched over a replica set.
use vstd::prelude::*;

verus! {

pub const READ_PRIMARY: u32 = 1;
pub const READ_SECONDARY: u32 = 2;
pub const READ_PRIMARY_PREFERRED: u32 = 5;
pub const READ_SECONDARY_PREFERRED: u32 = 6;
pub const READ_NEAREST: u32 = 10;

/// Describes how reads should be dispatched.
#[derive(Clone, Copy, Debug, PartialEq, Eq, Structural)]
pub enum ReadMode {
    /// All reads go to the primary. The default.
    Primary,
    /// Reads go to the nearest secondary members.
    Secondary,
    /// Reads go to the primary, or to secondaries when it is unavailable.
    PrimaryPreferred,
    /// Reads go to secondaries, or to the primary when none is available.
    SecondaryPreferred,
    /// Reads go to the nearest member of any kind.
    Nearest,
}

/// The driver's number for a read mode.
pub fn read_mode_value(read_mode: &ReadMode) -> (r: u32)
    ensures
        r == match *read_mode {
            ReadMode::Primary => READ_PRIMARY,
            ReadMode::Secondary => READ_SECONDARY,
            ReadMode::PrimaryPreferred => READ_PRIMARY_PREFERRED,
            ReadMode::SecondaryPreferred => READ_SECONDARY_PREFERRED,
            ReadMode::Nearest => READ_NEAREST,
        },
{
    match read_mode {
        ReadMode::Primary => READ_PRIMARY,
        ReadMode::Secondary => READ_SECONDARY,
        ReadMode::PrimaryPreferred => READ_PRIMARY_PREFERRED,
        ReadMode::SecondaryPreferred => READ_SECONDARY_PREFERRED,
        ReadMode::Nearest => READ_NEAREST,
    }
}

} // verus!
