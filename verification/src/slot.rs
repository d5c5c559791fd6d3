use crate::calendar::Date;
use vstd::prelude::*;

verus! {

/// A day has this many slots, one per hour.
pub const SLOTS_PER_DAY: u8 = 24;

/// Minutes of capacity in an untouched slot.
pub const SLOT_MINUTES: u8 = 60;

/// A slot left with this many minutes or fewer after a task was placed is closed.
pub const LOW_REMAINING: u8 = 4;

/// One hour of a day's schedule: what is left of its sixty minutes, whether
/// it still takes tasks, and the titles of what occupies it.
#[derive(Clone, Debug, PartialEq, Eq)]
pub struct SchedItem {
    pub id: Option<String>,
    pub date: Date,
    pub represented_hour_start: u8,
    pub has_time: bool,
    pub time_left_mins: u8,
    pub title: Vec<String>,
}

/// What a slot holds, with its labels as a sequence.
pub struct SlotState {
    pub id: Option<String>,
    pub date: Date,
    pub hour: u8,
    pub open: bool,
    pub remaining: u8,
    pub labels: Seq<String>,
}

impl View for SchedItem {
    type V = SlotState;

    open spec fn view(&self) -> SlotState {
        SlotState {
            id: self.id,
            date: self.date,
            hour: self.represented_hour_start,
            open: self.has_time,
            remaining: self.time_left_mins,
            labels: self.title@,
        }
    }
}

impl SlotState {
    /// The slot holds no more than an hour, and while it is open it has time
    /// left.
    pub open spec fn is_sound(self) -> bool {
        self.remaining <= SLOT_MINUTES && (self.open ==> self.remaining > 0)
    }
}

/// The states of a run of slots, in order.
pub open spec fn slot_states(slots: Seq<SchedItem>) -> Seq<SlotState> {
    slots.map_values(|s: SchedItem| s@)
}

/// The slot of `hour` on `date` before anything was laid on it.
pub open spec fn fresh_slot(date: Date, hour: u8) -> SlotState {
    SlotState {
        id: None,
        date,
        hour,
        open: true,
        remaining: SLOT_MINUTES,
        labels: Seq::empty(),
    }
}

impl SchedItem {
    /// An untouched slot for `hour` on `date`.
    pub fn fresh(date: Date, hour: u8) -> (slot: SchedItem)
        ensures
            slot@ == fresh_slot(date, hour),
    {
        SchedItem {
            id: None,
            date,
            represented_hour_start: hour,
            has_time: true,
            time_left_mins: SLOT_MINUTES,
            title: Vec::new(),
        }
    }
}

} // verus!
