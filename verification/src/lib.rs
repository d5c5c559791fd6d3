//! Hour-granular day planning.
//!
//! A day is 24 slots of sixty minutes. Fixed routines are laid over the
//! slots, and the backlog of tasks, in priority order, is packed into the
//! capacity that remains. A day is synthesized once and then stored; every
//! later request for it returns what was stored.
//!
//! - [`calendar`]: days, times of day and instants, and the reading of
//!   dates and of the clock.
//! - [`task`]: tasks, their priority score and the priority order of a
//!   backlog.
//! - [`routine`]: routines, and what they lay over a slot.
//! - [`slot`]: the slots of a day.
//! - [`planner`]: the synthesis of a day and its ledger of allotments.
//! - [`accounting`]: what the ledger of a day accounts for.
//! - [`session`]: a request for a day's schedule, step by step, for a caller
//!   that performs the store calls.
//! - [`forms`]: the reading of filled-in forms into tasks and routines.
//! - [`error`]: how a request can fail.

pub mod accounting;
pub mod calendar;
pub mod error;
pub mod forms;
pub mod planner;
pub mod routine;
pub mod session;
pub mod slot;
pub mod task;
