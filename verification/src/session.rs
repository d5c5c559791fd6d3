use crate::calendar::{day_named, local_now, parse_day, Date, Timestamp};
use crate::error::ScheduleError;
use crate::planner::{create_day_sched, day_plan, DayPlan, Plan};
use crate::routine::{active_on, get_day_static_schedule, Routine};
use crate::slot::{slot_states, SchedItem, SlotState};
use crate::task::{prioritize, priority_order, Task};
use vstd::prelude::*;

verus! {

/// Where a request for a day's schedule stands.
#[derive(Clone, Debug, PartialEq, Eq)]
pub enum Synthesis {
    /// The schedule store was asked for the day.
    Lookup { date: Date },
    /// The day is not stored; the routines and the backlog were asked for.
    Loading { date: Date },
    /// The day was synthesized and handed out to be persisted.
    Persisting { slots: Vec<SchedItem> },
    /// The request was answered.
    Finished,
}

/// What the stores answer.
#[derive(Clone, Debug, PartialEq, Eq)]
pub enum Reply {
    /// The slots stored under the day, if it is stored.
    Slots(Option<Vec<SchedItem>>),
    /// The routines and the backlog.
    Inputs { routines: Vec<Routine>, tasks: Vec<Task> },
    /// The plan was applied and its slots are stored.
    Persisted,
    /// A store call failed.
    Failed,
}

/// What is to be done next for the request.
#[derive(Clone, Debug, PartialEq, Eq)]
pub enum Command {
    /// Ask the schedule store for the slots of the day.
    GetSlots(Date),
    /// Ask for the routines, at least those that apply on the day, and for
    /// the backlog.
    LoadInputs(Date),
    /// Unless the day was stored in the meantime, apply the ledger of the
    /// plan to the task store, entry by entry, and store its slots under its
    /// date: all of the slots or none. Where the day was stored in the
    /// meantime, apply nothing and reply with the stored slots.
    Persist(DayPlan),
    /// Answer the caller with these slots.
    Return(Vec<SchedItem>),
    /// Answer the caller with this failure.
    Abort(ScheduleError),
}

/// The first step for a day, or the refusal of what was not a day.
pub open spec fn begins(day: Result<Date, ScheduleError>, next: Synthesis, command: Command) -> bool {
    match day {
        Ok(date) => next == (Synthesis::Lookup { date }) && command == Command::GetSlots(date),
        Err(e) => next == Synthesis::Finished && command == Command::Abort(e),
    }
}

/// `command` hands out the day synthesized at `now` from the routines that
/// apply on `date` and from the backlog in priority order, and `next` keeps
/// its slots for the answer.
pub open spec fn synthesizes(
    date: Date,
    routines: Seq<Routine>,
    tasks: Seq<Task>,
    now: Timestamp,
    next: Synthesis,
    command: Command,
) -> bool {
    &&& command matches Command::Persist(plan)
    &&& plan.date == date
    &&& plan@ == day_plan(date, routines.filter(active_on(date)), priority_order(tasks, now))
    &&& next matches Synthesis::Persisting { slots }
    &&& slot_states(slots@) == plan@.slots
}

/// One step of a request. A stored day is returned as it is, and nothing
/// else is asked for or changed. A day that is not stored is synthesized
/// once its inputs arrive, and returned once it was persisted; where another
/// request stored the day first, the plan is dropped and the stored day is
/// returned. Whatever else a store answers ends the request as a storage
/// failure.
pub open spec fn advances(
    state: Synthesis,
    reply: Reply,
    now: Timestamp,
    next: Synthesis,
    command: Command,
) -> bool {
    match (state, reply) {
        (Synthesis::Lookup { .. }, Reply::Slots(Some(stored))) => {
            next == Synthesis::Finished && command == Command::Return(stored)
        },
        (Synthesis::Lookup { date }, Reply::Slots(None)) => {
            next == (Synthesis::Loading { date }) && command == Command::LoadInputs(date)
        },
        (Synthesis::Loading { date }, Reply::Inputs { routines, tasks }) => {
            synthesizes(date, routines@, tasks@, now, next, command)
        },
        (Synthesis::Persisting { slots }, Reply::Persisted) => {
            next == Synthesis::Finished && command == Command::Return(slots)
        },
        (Synthesis::Persisting { .. }, Reply::Slots(Some(stored))) => {
            next == Synthesis::Finished && command == Command::Return(stored)
        },
        _ => {
            next == Synthesis::Finished && command == Command::Abort(
                ScheduleError::StorageUnavailable,
            )
        },
    }
}

fn copy_labels(labels: &Vec<String>) -> (copy: Vec<String>)
    ensures
        copy@ == labels@,
{
    let mut copy: Vec<String> = Vec::new();
    let mut i: usize = 0;
    while i < labels.len()
        invariant
            i <= labels.len(),
            copy@ == labels@.take(i as int),
        decreases labels.len() - i,
    {
        copy.push(labels[i].clone());
        proof {
            assert(labels@.take(i + 1) =~= labels@.take(i as int).push(labels@[i as int]));
        }
        i += 1;
    }
    proof {
        assert(labels@.take(labels.len() as int) =~= labels@);
    }
    copy
}

fn copy_slots(slots: &Vec<SchedItem>) -> (copy: Vec<SchedItem>)
    ensures
        slot_states(copy@) == slot_states(slots@),
{
    let mut copy: Vec<SchedItem> = Vec::new();
    let mut i: usize = 0;
    while i < slots.len()
        invariant
            i <= slots.len(),
            copy.len() == i,
            forall|j: int| 0 <= j < i ==> copy[j]@ == slots[j]@,
        decreases slots.len() - i,
    {
        let slot = &slots[i];
        let id = match &slot.id {
            Some(text) => Some(text.clone()),
            None => None,
        };
        copy.push(
            SchedItem {
                id,
                date: slot.date,
                represented_hour_start: slot.represented_hour_start,
                has_time: slot.has_time,
                time_left_mins: slot.time_left_mins,
                title: copy_labels(&slot.title),
            },
        );
        i += 1;
    }
    proof {
        assert(slot_states(copy@) =~= slot_states(slots@));
    }
    copy
}

impl Synthesis {
    /// Opens a request for a day that was read from the caller's text, or
    /// ends it where the text named no day: no store is asked then.
    pub fn begin(day: Result<Date, ScheduleError>) -> (step: (Synthesis, Command))
        ensures
            begins(day, step.0, step.1),
    {
        match day {
            Ok(date) => (Synthesis::Lookup { date }, Command::GetSlots(date)),
            Err(e) => (Synthesis::Finished, Command::Abort(e)),
        }
    }

    /// Takes the request one step further on a store's reply, with `now` as
    /// the instant at which a backlog is put in priority order.
    pub fn advance_at(self, reply: Reply, now: Timestamp) -> (step: (Synthesis, Command))
        ensures
            advances(self, reply, now, step.0, step.1),
    {
        match (self, reply) {
            (Synthesis::Lookup { .. }, Reply::Slots(Some(stored))) => {
                (Synthesis::Finished, Command::Return(stored))
            },
            (Synthesis::Lookup { date }, Reply::Slots(None)) => {
                (Synthesis::Loading { date }, Command::LoadInputs(date))
            },
            (Synthesis::Loading { date }, Reply::Inputs { routines, tasks }) => {
                let active = get_day_static_schedule(routines, &date);
                let sorted = prioritize(tasks, now);
                let plan = create_day_sched(date, &active, sorted);
                let slots = copy_slots(&plan.slots);
                (Synthesis::Persisting { slots }, Command::Persist(plan))
            },
            (Synthesis::Persisting { slots }, Reply::Persisted) => {
                (Synthesis::Finished, Command::Return(slots))
            },
            (Synthesis::Persisting { .. }, Reply::Slots(Some(stored))) => {
                (Synthesis::Finished, Command::Return(stored))
            },
            _ => (Synthesis::Finished, Command::Abort(ScheduleError::StorageUnavailable)),
        }
    }

    /// Takes the request one step further on a store's reply, reading the
    /// clock for the instant.
    pub fn advance(self, reply: Reply) -> (step: (Synthesis, Command))
        ensures
            exists|now: Timestamp| #[trigger] advances(self, reply, now, step.0, step.1),
    {
        let now = local_now();
        self.advance_at(reply, now)
    }
}

/// Opens a request for the schedule of the day that `day_str` names, written
/// as year, month and day with hyphens between them.
pub fn get_schedule_by_day(day_str: &str) -> (step: (Synthesis, Command))
    ensures
        begins(day_named(day_str@), step.0, step.1),
{
    Synthesis::begin(parse_day(day_str))
}

/// A stored day is the answer: whatever the instant, the routines and the
/// backlog, a request that finds the day stored ends with exactly the stored
/// slots, and no plan is handed out, so no task changes.
pub proof fn lemma_stored_day_is_returned(
    date: Date,
    stored: Vec<SchedItem>,
    now: Timestamp,
    next: Synthesis,
    command: Command,
)
    requires
        advances(Synthesis::Lookup { date }, Reply::Slots(Some(stored)), now, next, command),
    ensures
        next == Synthesis::Finished,
        command == Command::Return(stored),
{
}

/// A day is stored by one request only: a request that synthesized a day
/// which another request stored first drops its own plan, of which nothing
/// was applied, and ends with the stored slots.
pub proof fn lemma_late_plan_is_dropped(
    slots: Vec<SchedItem>,
    stored: Vec<SchedItem>,
    now: Timestamp,
    next: Synthesis,
    command: Command,
)
    requires
        advances(Synthesis::Persisting { slots }, Reply::Slots(Some(stored)), now, next, command),
    ensures
        next == Synthesis::Finished,
        command == Command::Return(stored),
{
}

/// Plans are handed out in one place: a request hands out a plan only when
/// the inputs of a day arrive that was found not to be stored.
pub proof fn lemma_plan_needs_a_miss(
    state: Synthesis,
    reply: Reply,
    now: Timestamp,
    next: Synthesis,
    command: Command,
)
    requires
        advances(state, reply, now, next, command),
        command is Persist,
    ensures
        state is Loading,
        reply is Inputs,
{
}

/// The stores as requests see them: the days that are stored, and the plans
/// whose ledgers were applied to the task store, in the order in which they
/// were applied.
pub struct Stores {
    pub days: Map<Date, Seq<SlotState>>,
    pub applied: Seq<Plan>,
}

/// The stores after a plan for `date` was handed out to be persisted and the
/// command was carried out: a day that is stored already is left alone, and
/// nothing is applied; else the slots are stored and the ledger is applied.
pub open spec fn persisted(stores: Stores, date: Date, plan: Plan) -> Stores {
    if stores.days.dom().contains(date) {
        stores
    } else {
        Stores { days: stores.days.insert(date, plan.slots), applied: stores.applied.push(plan) }
    }
}

/// `reply` is the answer that carrying out the command on `stores` gives.
pub open spec fn replies_to_persist(stores: Stores, date: Date, reply: Reply) -> bool {
    if stores.days.dom().contains(date) {
        reply matches Reply::Slots(Some(stored)) && slot_states(stored@) == stores.days[date]
    } else {
        reply == Reply::Persisted
    }
}

/// Two requests that both found a day not stored, and both synthesized it,
/// change the tasks once: whichever plan is persisted first is applied and
/// stored, the other is dropped, and both requests answer with the slots of
/// the plan that was applied.
pub proof fn lemma_one_of_two_plans_is_applied(
    stores: Stores,
    date: Date,
    first: (Synthesis, DayPlan),
    second: (Synthesis, DayPlan),
    now: Timestamp,
    replies: (Reply, Reply),
    ends: ((Synthesis, Command), (Synthesis, Command)),
)
    requires
        !stores.days.dom().contains(date),
        first.0 matches Synthesis::Persisting { slots } && slot_states(slots@) == first.1@.slots,
        second.0 matches Synthesis::Persisting { slots } && slot_states(slots@) == second.1@.slots,
        replies_to_persist(stores, date, replies.0),
        replies_to_persist(persisted(stores, date, first.1@), date, replies.1),
        advances(first.0, replies.0, now, ends.0.0, ends.0.1),
        advances(second.0, replies.1, now, ends.1.0, ends.1.1),
    ensures
        persisted(persisted(stores, date, first.1@), date, second.1@).applied
            == stores.applied.push(first.1@),
        persisted(persisted(stores, date, first.1@), date, second.1@).days[date] == first.1@.slots,
        ends.0.0 == Synthesis::Finished,
        ends.1.0 == Synthesis::Finished,
        ends.0.1 matches Command::Return(slots) && slot_states(slots@) == first.1@.slots,
        ends.1.1 matches Command::Return(slots) && slot_states(slots@) == first.1@.slots,
{
}

} // verus!
