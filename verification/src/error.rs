use vstd::prelude::*;

verus! {

/// The ways in which a request for a day's schedule can fail.
#[derive(Clone, Copy, Debug, PartialEq, Eq, Structural)]
pub enum ScheduleError {
    /// The caller's text does not name a calendar day.
    InvalidDate,
    /// A store did not answer, or answered something other than what was asked.
    StorageUnavailable,
}

} // verus!
