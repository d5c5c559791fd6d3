use crate::accounting::{accounts_for_slots, accounts_for_tasks, lemma_ledger_accounts_for_day};
use crate::calendar::Date;
use crate::routine::{overlaid, overlay_slot, Routine};
use crate::slot::{slot_states, SchedItem, SlotState, LOW_REMAINING, SLOTS_PER_DAY};
use crate::task::Task;
use vstd::prelude::*;

verus! {

/// One entry of a day's ledger: the slot of `hour` gave `minutes` to the task
/// at position `task` of the backlog, which then had `allocated` minutes in all.
#[derive(Clone, Copy, Debug, PartialEq, Eq, Structural)]
pub struct Allotment {
    pub hour: u8,
    pub task: usize,
    pub minutes: u8,
    pub allocated: u32,
}

/// A synthesized day: its slots in hour order, the backlog as the day leaves
/// it, and the ledger of every allotment in the order in which it was made.
#[derive(Clone, Debug, PartialEq, Eq)]
pub struct DayPlan {
    pub date: Date,
    pub slots: Vec<SchedItem>,
    pub tasks: Vec<Task>,
    pub ledger: Vec<Allotment>,
}

/// What a plan holds, as sequences.
pub struct Plan {
    pub slots: Seq<SlotState>,
    pub tasks: Seq<Task>,
    pub ledger: Seq<Allotment>,
}

impl View for DayPlan {
    type V = Plan;

    open spec fn view(&self) -> Plan {
        Plan { slots: slot_states(self.slots@), tasks: self.tasks@, ledger: self.ledger@ }
    }
}

/// A slot on its way through the backlog.
pub struct Filling {
    pub slot: SlotState,
    pub tasks: Seq<Task>,
    pub ledger: Seq<Allotment>,
}

/// The minutes that `slot` gives to `task`: what the task still misses, as
/// far as the slot has it.
pub open spec fn allottable(slot: SlotState, task: Task) -> nat {
    if slot.remaining <= task.shortfall() {
        slot.remaining as nat
    } else {
        task.shortfall()
    }
}

/// `task` with `minutes` more to its credit.
pub open spec fn credited(task: Task, minutes: nat) -> Task {
    Task { time_alloted: (task.time_alloted + minutes) as u32, ..task }
}

/// `slot` after it gave `minutes` to the task named `label`: it closes when
/// no more than the low threshold is left.
pub open spec fn debited(slot: SlotState, minutes: nat, label: String) -> SlotState {
    SlotState {
        remaining: (slot.remaining - minutes) as u8,
        open: slot.remaining - minutes > LOW_REMAINING,
        labels: slot.labels.push(label),
        ..slot
    }
}

/// The slot meets the task at position `k` of the backlog. An open slot gives
/// a task that wants time what it can, and the ledger records it; anything
/// else passes.
pub open spec fn visit(f: Filling, k: int) -> Filling {
    let task = f.tasks[k];
    if 0 <= k < f.tasks.len() && f.slot.open && task.wants_time() {
        let give = allottable(f.slot, task);
        Filling {
            slot: debited(f.slot, give, task.name),
            tasks: f.tasks.update(k, credited(task, give)),
            ledger: f.ledger.push(
                Allotment {
                    hour: f.slot.hour,
                    task: k as usize,
                    minutes: give as u8,
                    allocated: credited(task, give).time_alloted,
                },
            ),
        }
    } else {
        f
    }
}

/// The filling after the slot met the first `n` tasks, in order.
pub open spec fn filled(start: Filling, n: nat) -> Filling
    decreases n,
{
    if n == 0 {
        start
    } else {
        visit(filled(start, (n - 1) as nat), n - 1)
    }
}

/// The filling after the slot met every task.
pub open spec fn slot_filled(slot: SlotState, tasks: Seq<Task>, ledger: Seq<Allotment>) -> Filling {
    filled(Filling { slot, tasks, ledger }, tasks.len())
}

/// The plan after the first `n` hours of `date`: each hour's slot has the
/// routines laid over it and is then filled from the backlog as the hours
/// before left it.
pub open spec fn planned(date: Date, routines: Seq<Routine>, tasks: Seq<Task>, n: nat) -> Plan
    decreases n,
{
    if n == 0 {
        Plan { slots: Seq::empty(), tasks, ledger: Seq::empty() }
    } else {
        let before = planned(date, routines, tasks, (n - 1) as nat);
        let f = slot_filled(overlaid(date, routines, (n - 1) as u8), before.tasks, before.ledger);
        Plan { slots: before.slots.push(f.slot), tasks: f.tasks, ledger: f.ledger }
    }
}

/// The plan of the whole day.
pub open spec fn day_plan(date: Date, routines: Seq<Routine>, tasks: Seq<Task>) -> Plan {
    planned(date, routines, tasks, SLOTS_PER_DAY as nat)
}

/// Once the slot is closed, meeting further tasks changes nothing.
pub proof fn lemma_closed_stays(start: Filling, k: nat, n: nat)
    requires
        k <= n,
        !filled(start, k).slot.open,
    ensures
        filled(start, n) == filled(start, k),
    decreases n,
{
    if n > k {
        lemma_closed_stays(start, k, (n - 1) as nat);
    }
}

/// Walks the backlog for one slot: while the slot is open, every task that is
/// not done and short of its required time gets what the slot can give.
pub fn fill_slot(slot: &mut SchedItem, tasks: &mut Vec<Task>, ledger: &mut Vec<Allotment>)
    ensures
        (Filling { slot: final(slot)@, tasks: final(tasks)@, ledger: final(ledger)@ })
            == slot_filled(old(slot)@, old(tasks)@, old(ledger)@),
{
    let ghost start = Filling { slot: slot@, tasks: tasks@, ledger: ledger@ };
    let mut k: usize = 0;
    while k < tasks.len() && slot.has_time
        invariant
            k <= tasks.len(),
            tasks.len() == start.tasks.len(),
            (Filling { slot: slot@, tasks: tasks@, ledger: ledger@ }) == filled(start, k as nat),
        decreases tasks.len() - k,
    {
        if !tasks[k].is_done && tasks[k].time_alloted < tasks[k].req_time {
            let missing: u32 = tasks[k].req_time - tasks[k].time_alloted;
            let give: u8 = if slot.time_left_mins as u32 <= missing {
                slot.time_left_mins
            } else {
                missing as u8
            };
            let total: u32 = tasks[k].time_alloted + give as u32;
            let label = tasks[k].name.clone();
            tasks[k].time_alloted = total;
            ledger.push(
                Allotment {
                    hour: slot.represented_hour_start,
                    task: k,
                    minutes: give,
                    allocated: total,
                },
            );
            slot.title.push(label);
            slot.time_left_mins = slot.time_left_mins - give;
            slot.has_time = slot.time_left_mins > LOW_REMAINING;
        }
        k += 1;
    }
    proof {
        if k < tasks.len() {
            lemma_closed_stays(start, k as nat, tasks.len() as nat);
        }
    }
}

/// Synthesizes the day: lays `routines` over each of the 24 slots of `date`
/// and fills the slots, hour by hour, from `tasks` in the order given.
pub fn create_day_sched(date: Date, routines: &Vec<Routine>, tasks: Vec<Task>) -> (plan: DayPlan)
    ensures
        plan@ == day_plan(date, routines@, tasks@),
        plan.date == date,
        accounts_for_tasks(tasks@, plan@.tasks, plan@.ledger),
        accounts_for_slots(
            date,
            routines@,
            tasks@,
            plan@.slots,
            plan@.ledger,
            SLOTS_PER_DAY as nat,
        ),
        forall|h: int| 0 <= h < SLOTS_PER_DAY ==> (#[trigger] plan@.slots[h]).is_sound(),
{
    let ghost backlog = tasks@;
    let mut tasks = tasks;
    assert(backlog.len() <= usize::MAX) by {
        assert(tasks.len() == backlog.len());
    }
    let mut slots: Vec<SchedItem> = Vec::new();
    let mut ledger: Vec<Allotment> = Vec::new();
    let mut hour: u8 = 0;
    proof {
        assert(slot_states(slots@) =~= Seq::<SlotState>::empty());
    }
    while hour < SLOTS_PER_DAY
        invariant
            hour <= SLOTS_PER_DAY,
            (Plan { slots: slot_states(slots@), tasks: tasks@, ledger: ledger@ }) == planned(
                date,
                routines@,
                backlog,
                hour as nat,
            ),
        decreases SLOTS_PER_DAY - hour,
    {
        let mut slot = overlay_slot(date, hour, routines);
        fill_slot(&mut slot, &mut tasks, &mut ledger);
        let ghost before = slots@;
        slots.push(slot);
        proof {
            assert(slot_states(slots@) =~= slot_states(before).push(slot@));
        }
        hour += 1;
    }
    proof {
        lemma_ledger_accounts_for_day(date, routines@, backlog);
    }
    DayPlan { date, slots, tasks, ledger }
}

} // verus!
