use vstd::prelude::*;

verus! {

/// The named failures a rule check can produce. Every operation aborts with
/// exactly one of these and leaves every record untouched.
#[derive(Clone, Copy, Debug, PartialEq, Eq, Structural)]
pub enum DimiError {
    /// A capability or ownership check failed.
    Unauthorized,
    /// A user's display name exceeds its byte budget.
    NameTooLong,
    /// A beat title exceeds its byte budget.
    TitleTooLong,
    /// A beat or track URI exceeds its byte budget.
    UriTooLong,
    /// A beat carries more tags than allowed.
    TooManyTags,
    /// The referenced beat is neither shared nor owned by the caller.
    BeatNotShared,
    /// The referenced beat has been archived.
    BeatArchived,
    /// A per-user beat counter has exhausted its range.
    Overflow,
}

/// The outcome of an operation against the registry: either a rule check
/// rejected it, or the storage layer could not honour it because the
/// addressed slot was missing or already occupied.
#[derive(Clone, Copy, Debug, PartialEq, Eq, Structural)]
pub enum OpError {
    /// A record the operation addresses does not exist.
    MissingRecord,
    /// The slot the operation would create is already occupied.
    SlotOccupied,
    /// A rule check failed with the given error.
    Rejected(DimiError),
}

} // verus!
