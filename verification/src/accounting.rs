use crate::calendar::Date;
use crate::planner::{
    allottable, credited, day_plan, filled, lemma_closed_stays, planned, slot_filled, visit,
    Allotment, Filling, Plan,
};
use crate::routine::{lemma_unmarked_slot_is_fresh, overlaid, Routine};
use crate::slot::{fresh_slot, SlotState, LOW_REMAINING, SLOTS_PER_DAY};
use crate::task::Task;
use vstd::prelude::*;

verus! {

/// The minutes that the ledger gives to the task at position `task`.
pub open spec fn minutes_given(ledger: Seq<Allotment>, task: int) -> nat
    decreases ledger.len(),
{
    if ledger.len() == 0 {
        0
    } else {
        let e = ledger.last();
        minutes_given(ledger.drop_last(), task) + if e.task == task {
            e.minutes as nat
        } else {
            0
        }
    }
}

/// The minutes that the ledger takes from the slot of `hour`.
pub open spec fn minutes_taken(ledger: Seq<Allotment>, hour: u8) -> nat
    decreases ledger.len(),
{
    if ledger.len() == 0 {
        0
    } else {
        let e = ledger.last();
        minutes_taken(ledger.drop_last(), hour) + if e.hour == hour {
            e.minutes as nat
        } else {
            0
        }
    }
}

/// The names of the tasks that the ledger places in the slot of `hour`, one
/// for each allotment, in the order of the ledger.
pub open spec fn names_placed(ledger: Seq<Allotment>, backlog: Seq<Task>, hour: u8) -> Seq<String>
    decreases ledger.len(),
{
    if ledger.len() == 0 {
        Seq::empty()
    } else {
        let e = ledger.last();
        let before = names_placed(ledger.drop_last(), backlog, hour);
        if e.hour == hour {
            before.push(backlog[e.task as int].name)
        } else {
            before
        }
    }
}

/// `slot` once the ledger is applied to it: it has lost the minutes taken
/// from it and gained the names placed in it, and where anything was taken it
/// is open only above the low threshold.
pub open spec fn settled(slot: SlotState, ledger: Seq<Allotment>, backlog: Seq<Task>) -> SlotState {
    let taken = minutes_taken(ledger, slot.hour);
    SlotState {
        remaining: (slot.remaining - taken) as u8,
        open: if taken == 0 {
            slot.open
        } else {
            slot.remaining - taken > LOW_REMAINING
        },
        labels: slot.labels + names_placed(ledger, backlog, slot.hour),
        ..slot
    }
}

/// `tasks` is `backlog` with every task credited what the ledger gives it,
/// and no task is given more than it was missing.
pub open spec fn accounts_for_tasks(
    backlog: Seq<Task>,
    tasks: Seq<Task>,
    ledger: Seq<Allotment>,
) -> bool {
    &&& tasks.len() == backlog.len()
    &&& forall|i: int|
        0 <= i < backlog.len() ==> {
            &&& minutes_given(ledger, i) <= backlog[i].shortfall()
            &&& #[trigger] tasks[i] == credited(backlog[i], minutes_given(ledger, i))
        }
}

/// `slots` are the slots of the first `n` hours of `date`, each with
/// `routines` laid over it and the ledger applied.
pub open spec fn accounts_for_slots(
    date: Date,
    routines: Seq<Routine>,
    backlog: Seq<Task>,
    slots: Seq<SlotState>,
    ledger: Seq<Allotment>,
    n: nat,
) -> bool {
    &&& slots.len() == n
    &&& forall|h: int|
        0 <= h < n ==> {
            &&& minutes_taken(ledger, h as u8) <= overlaid(date, routines, h as u8).remaining
            &&& #[trigger] slots[h] == settled(overlaid(date, routines, h as u8), ledger, backlog)
        }
}

proof fn lemma_entry_added(ledger: Seq<Allotment>, e: Allotment, backlog: Seq<Task>)
    ensures
        forall|i: int| #[trigger]
            minutes_given(ledger.push(e), i) == minutes_given(ledger, i) + if e.task == i {
                e.minutes as nat
            } else {
                0
            },
        forall|h: u8| #[trigger]
            minutes_taken(ledger.push(e), h) == minutes_taken(ledger, h) + if e.hour == h {
                e.minutes as nat
            } else {
                0
            },
        forall|h: u8| #[trigger]
            names_placed(ledger.push(e), backlog, h) == if e.hour == h {
                names_placed(ledger, backlog, h).push(backlog[e.task as int].name)
            } else {
                names_placed(ledger, backlog, h)
            },
{
    assert(ledger.push(e).drop_last() =~= ledger);
}

proof fn lemma_filled_accounts(start: Filling, backlog: Seq<Task>, n: nat)
    requires
        n <= backlog.len() <= usize::MAX,
        accounts_for_tasks(backlog, start.tasks, start.ledger),
        start.slot.open ==> start.slot.remaining > 0,
        minutes_taken(start.ledger, start.slot.hour) == 0,
        names_placed(start.ledger, backlog, start.slot.hour) == Seq::<String>::empty(),
    ensures
        accounts_for_tasks(backlog, filled(start, n).tasks, filled(start, n).ledger),
        minutes_taken(filled(start, n).ledger, start.slot.hour) <= start.slot.remaining,
        filled(start, n).slot == settled(start.slot, filled(start, n).ledger, backlog),
        filled(start, n).slot.open ==> filled(start, n).slot.remaining > 0,
        forall|h: u8|
            h != start.slot.hour ==> #[trigger] minutes_taken(filled(start, n).ledger, h)
                == minutes_taken(start.ledger, h),
        forall|h: u8|
            h != start.slot.hour ==> #[trigger] names_placed(filled(start, n).ledger, backlog, h)
                == names_placed(start.ledger, backlog, h),
    decreases n,
{
    if n == 0 {
        assert(start.slot.labels + Seq::<String>::empty() =~= start.slot.labels);
    } else {
        let k = n - 1;
        let prev = filled(start, k as nat);
        lemma_filled_accounts(start, backlog, k as nat);
        let task = prev.tasks[k];
        if prev.slot.open && task.wants_time() {
            let cur = visit(prev, k);
            let give = allottable(prev.slot, task);
            let e = cur.ledger.last();
            assert(cur.ledger == prev.ledger.push(e));
            lemma_entry_added(prev.ledger, e, backlog);
            let sofar = minutes_given(prev.ledger, k);
            assert(task == credited(backlog[k], sofar));
            assert(credited(task, give) == credited(backlog[k], sofar + give));
            assert forall|i: int| 0 <= i < backlog.len() implies {
                &&& minutes_given(cur.ledger, i) <= backlog[i].shortfall()
                &&& #[trigger] cur.tasks[i] == credited(backlog[i], minutes_given(cur.ledger, i))
            } by {
                if i != k {
                    assert(cur.tasks[i] == prev.tasks[i]);
                }
            }
            assert(cur.slot.labels =~= start.slot.labels + names_placed(
                cur.ledger,
                backlog,
                start.slot.hour,
            ));
        }
    }
}

proof fn lemma_planned_accounts(date: Date, routines: Seq<Routine>, backlog: Seq<Task>, n: nat)
    requires
        n <= SLOTS_PER_DAY,
        backlog.len() <= usize::MAX,
    ensures
        accounts_for_tasks(
            backlog,
            planned(date, routines, backlog, n).tasks,
            planned(date, routines, backlog, n).ledger,
        ),
        accounts_for_slots(
            date,
            routines,
            backlog,
            planned(date, routines, backlog, n).slots,
            planned(date, routines, backlog, n).ledger,
            n,
        ),
        forall|h: u8|
            h >= n ==> #[trigger] minutes_taken(planned(date, routines, backlog, n).ledger, h)
                == 0,
        forall|h: u8|
            h >= n ==> #[trigger] names_placed(planned(date, routines, backlog, n).ledger, backlog, h)
                == Seq::<String>::empty(),
    decreases n,
{
    if n > 0 {
        let hour = (n - 1) as u8;
        let before = planned(date, routines, backlog, (n - 1) as nat);
        lemma_planned_accounts(date, routines, backlog, (n - 1) as nat);
        let start = Filling {
            slot: overlaid(date, routines, hour),
            tasks: before.tasks,
            ledger: before.ledger,
        };
        assert(minutes_taken(before.ledger, hour) == 0);
        assert(names_placed(before.ledger, backlog, hour) == Seq::<String>::empty());
        lemma_filled_accounts(start, backlog, backlog.len());
        let plan = planned(date, routines, backlog, n);
        let f = slot_filled(start.slot, before.tasks, before.ledger);
        assert(plan.ledger == f.ledger);
        assert forall|h: int| 0 <= h < n implies {
            &&& minutes_taken(plan.ledger, h as u8) <= overlaid(date, routines, h as u8).remaining
            &&& #[trigger] plan.slots[h] == settled(
                overlaid(date, routines, h as u8),
                plan.ledger,
                backlog,
            )
        } by {
            if h < n - 1 {
                assert(plan.slots[h] == before.slots[h]);
                assert(minutes_taken(plan.ledger, h as u8) == minutes_taken(
                    before.ledger,
                    h as u8,
                ));
                assert(names_placed(plan.ledger, backlog, h as u8) == names_placed(
                    before.ledger,
                    backlog,
                    h as u8,
                ));
            }
        }
    }
}

proof fn lemma_slot_keeps_place(
    date: Date,
    routines: Seq<Routine>,
    backlog: Seq<Task>,
    h: nat,
    n: nat,
)
    requires
        h < n,
    ensures
        planned(date, routines, backlog, n).slots.len() == n,
        planned(date, routines, backlog, n).slots[h as int] == planned(
            date,
            routines,
            backlog,
            h + 1,
        ).slots[h as int],
    decreases n,
{
    lemma_slots_counted(date, routines, backlog, (n - 1) as nat);
    if n > h + 1 {
        lemma_slot_keeps_place(date, routines, backlog, h, (n - 1) as nat);
    }
}

proof fn lemma_slots_counted(date: Date, routines: Seq<Routine>, backlog: Seq<Task>, n: nat)
    ensures
        planned(date, routines, backlog, n).slots.len() == n,
    decreases n,
{
    if n > 0 {
        lemma_slots_counted(date, routines, backlog, (n - 1) as nat);
    }
}

/// A slot that the routines closed stays as they left it: the day places no
/// task in it.
pub proof fn lemma_closed_slot_is_kept(
    date: Date,
    routines: Seq<Routine>,
    backlog: Seq<Task>,
    hour: u8,
)
    requires
        hour < SLOTS_PER_DAY,
        !overlaid(date, routines, hour).open,
    ensures
        day_plan(date, routines, backlog).slots[hour as int] == overlaid(date, routines, hour),
{
    let before = planned(date, routines, backlog, hour as nat);
    let start = Filling {
        slot: overlaid(date, routines, hour),
        tasks: before.tasks,
        ledger: before.ledger,
    };
    lemma_closed_stays(start, 0, before.tasks.len());
    lemma_slots_counted(date, routines, backlog, hour as nat);
    lemma_slot_keeps_place(date, routines, backlog, hour as nat, SLOTS_PER_DAY as nat);
}

/// With no routines and no tasks the day is 24 untouched slots, each open
/// with sixty minutes and no labels, and the ledger is empty.
pub proof fn lemma_empty_day(date: Date)
    ensures
        day_plan(date, Seq::empty(), Seq::empty()) == (Plan {
            slots: Seq::new(SLOTS_PER_DAY as nat, |h: int| fresh_slot(date, h as u8)),
            tasks: Seq::empty(),
            ledger: Seq::empty(),
        }),
{
    lemma_idle_day(date, Seq::empty(), SLOTS_PER_DAY as nat);
    let plan = day_plan(date, Seq::empty(), Seq::empty());
    assert forall|h: int| 0 <= h < SLOTS_PER_DAY implies plan.slots[h] == fresh_slot(
        date,
        h as u8,
    ) by {
        lemma_unmarked_slot_is_fresh(date, Seq::empty(), h as u8);
    }
    assert(plan.slots =~= Seq::new(SLOTS_PER_DAY as nat, |h: int| fresh_slot(date, h as u8)));
}

proof fn lemma_idle_day(date: Date, routines: Seq<Routine>, n: nat)
    requires
        n <= SLOTS_PER_DAY,
    ensures
        planned(date, routines, Seq::empty(), n).slots.len() == n,
        planned(date, routines, Seq::empty(), n).tasks == Seq::<Task>::empty(),
        planned(date, routines, Seq::empty(), n).ledger == Seq::<Allotment>::empty(),
        forall|h: int|
            0 <= h < n ==> #[trigger] planned(date, routines, Seq::empty(), n).slots[h]
                == overlaid(date, routines, h as u8),
    decreases n,
{
    if n > 0 {
        lemma_idle_day(date, routines, (n - 1) as nat);
    }
}

/// The ledger of a day accounts for every minute. Each task ends the day
/// with what it had plus exactly the minutes that the ledger gives it, in all
/// no more than it was missing at the start; a task that was given anything,
/// or that had no more than it requires, ends with no more than it requires.
/// Each slot ends with what the routines left of it less exactly the minutes
/// that the ledger takes from it, never more than sixty, and with the names
/// of the tasks placed in it after the titles of its routines.
pub proof fn lemma_ledger_accounts_for_day(date: Date, routines: Seq<Routine>, backlog: Seq<Task>)
    requires
        backlog.len() <= usize::MAX,
    ensures
        accounts_for_tasks(
            backlog,
            day_plan(date, routines, backlog).tasks,
            day_plan(date, routines, backlog).ledger,
        ),
        accounts_for_slots(
            date,
            routines,
            backlog,
            day_plan(date, routines, backlog).slots,
            day_plan(date, routines, backlog).ledger,
            SLOTS_PER_DAY as nat,
        ),
        forall|i: int|
            0 <= i < backlog.len() ==> {
                let given = minutes_given(day_plan(date, routines, backlog).ledger, i);
                let after = #[trigger] day_plan(date, routines, backlog).tasks[i];
                &&& after.time_alloted == backlog[i].time_alloted + given
                &&& given <= backlog[i].shortfall()
                &&& given > 0 ==> after.time_alloted <= after.req_time
                &&& backlog[i].time_alloted <= backlog[i].req_time ==> after.time_alloted
                    <= after.req_time
            },
        forall|h: int|
            0 <= h < SLOTS_PER_DAY ==> {
                let taken = minutes_taken(day_plan(date, routines, backlog).ledger, h as u8);
                let slot = #[trigger] day_plan(date, routines, backlog).slots[h];
                &&& slot.remaining == overlaid(date, routines, h as u8).remaining - taken
                &&& slot.is_sound()
                &&& slot.hour == h
                &&& slot.date == date
            },
{
    lemma_planned_accounts(date, routines, backlog, SLOTS_PER_DAY as nat);
}

} // verus!
