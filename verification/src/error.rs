use vstd::prelude::*;

verus! {

/// Every way an operation on the store can fail.  A failed operation
/// leaves the store exactly as it was.
#[derive(Clone, Copy, Debug, PartialEq, Eq, Structural)]
pub enum Error {
    /// A create targeted an address that already holds a record.
    AlreadyExists,
    /// An update, delete or cast targeted an address holding no record
    /// of the expected kind.
    NotFound,
    /// The caller's proven identity is not the record's owner.
    Unauthorized,
    /// A supplied field exceeds its preallocated byte budget.
    FieldTooLong,
    /// The voter's receipt address is already occupied: this identity
    /// has already been counted on this vote.
    DuplicateVote,
}

} // verus!
