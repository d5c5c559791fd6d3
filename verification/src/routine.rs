use crate::calendar::{Date, TimeOfDay};
use crate::slot::{fresh_slot, SchedItem, SlotState, SLOT_MINUTES};
use vstd::prelude::*;

verus! {

/// A fixed block of time that recurs on every day of a range of dates. The
/// range is meant to run forward and the block to end after it begins;
/// neither is taken for granted.
#[derive(Clone, Debug, PartialEq, Eq)]
pub struct Routine {
    pub id: Option<String>,
    pub title: String,
    pub start_date: Date,
    pub end_date: Date,
    pub imp: String,
    pub start_time: TimeOfDay,
    pub end_time: TimeOfDay,
    pub weekdays: Vec<String>,
}

impl Routine {
    /// The routine applies on `date`: the day lies in its range of dates.
    /// The weekdays it names play no part.
    pub open spec fn active_on(self, date: Date) -> bool {
        date.within(self.start_date, self.end_date)
    }

    /// The routine begins within `hour`.
    pub open spec fn starts_in(self, hour: u8) -> bool {
        self.start_time.hour == hour
    }

    /// `hour` lies strictly between the hour in which the routine begins and
    /// the hour in which it ends. A routine that does not end in a later
    /// hour than it begins covers no hour.
    pub open spec fn covers(self, hour: u8) -> bool {
        self.start_time.hour < hour < self.end_time.hour
    }

    /// The routine leaves its title on the slot of `hour`.
    pub open spec fn marks(self, hour: u8) -> bool {
        self.starts_in(hour) || self.covers(hour)
    }

    pub fn is_active_on(&self, date: &Date) -> (b: bool)
        ensures
            b == self.active_on(*date),
    {
        date.is_within(&self.start_date, &self.end_date)
    }
}

/// The routines that apply on `date`.
pub open spec fn active_on(date: Date) -> spec_fn(Routine) -> bool {
    |r: Routine| r.active_on(date)
}

/// The routines that leave their title on the slot of `hour`.
pub open spec fn marking(hour: u8) -> spec_fn(Routine) -> bool {
    |r: Routine| r.marks(hour)
}

/// The titles of `routines`, in order.
pub open spec fn titles(routines: Seq<Routine>) -> Seq<String> {
    routines.map_values(|r: Routine| r.title)
}

/// The minutes that the routines beginning within `hour` take from its slot:
/// each takes the minute of the hour at which it begins, not the minutes it
/// lasts.
pub open spec fn minutes_claimed(routines: Seq<Routine>, hour: u8) -> nat
    decreases routines.len(),
{
    if routines.len() == 0 {
        0
    } else {
        let r = routines.last();
        minutes_claimed(routines.drop_last(), hour) + if r.starts_in(hour) {
            r.start_time.minute as nat
        } else {
            0
        }
    }
}

/// Some routine covers `hour`.
pub open spec fn is_covered(routines: Seq<Routine>, hour: u8) -> bool {
    exists|i: int| 0 <= i < routines.len() && #[trigger] routines[i].covers(hour)
}

/// Minutes left in the slot of `hour` once `routines` are laid over it: none
/// where a routine covers the hour, else sixty less what is claimed, not
/// below zero.
pub open spec fn minutes_left(routines: Seq<Routine>, hour: u8) -> u8 {
    if is_covered(routines, hour) || minutes_claimed(routines, hour) >= SLOT_MINUTES {
        0
    } else {
        (SLOT_MINUTES - minutes_claimed(routines, hour)) as u8
    }
}

/// The slot of `hour` on `date` with `routines` laid over it. It stays open
/// as long as a minute is left.
pub open spec fn overlaid(date: Date, routines: Seq<Routine>, hour: u8) -> SlotState {
    SlotState {
        id: None,
        date,
        hour,
        open: minutes_left(routines, hour) > 0,
        remaining: minutes_left(routines, hour),
        labels: titles(routines.filter(marking(hour))),
    }
}

proof fn lemma_claimed_joined(a: Seq<Routine>, b: Seq<Routine>, hour: u8)
    ensures
        minutes_claimed(a + b, hour) == minutes_claimed(a, hour) + minutes_claimed(b, hour),
    decreases b.len(),
{
    if b.len() == 0 {
        assert(a + b =~= a);
    } else {
        assert((a + b).drop_last() =~= a + b.drop_last());
        lemma_claimed_joined(a, b.drop_last(), hour);
    }
}

/// A routine that begins and ends within one hour touches the slot of that
/// hour alone: over any other hour the routines lay what they would lay
/// without it.
pub proof fn lemma_short_routine_marks_one_slot(
    date: Date,
    routines: Seq<Routine>,
    k: int,
    hour: u8,
)
    requires
        0 <= k < routines.len(),
        routines[k].start_time.hour == routines[k].end_time.hour,
        hour != routines[k].start_time.hour,
    ensures
        overlaid(date, routines, hour) == overlaid(date, routines.remove(k), hour),
{
    let r = routines[k];
    let head = routines.take(k);
    let tail = routines.skip(k + 1);
    let without = routines.remove(k);
    assert(routines =~= head + (seq![r] + tail));
    assert(without =~= head + tail);
    assert(!r.marks(hour));
    lemma_claimed_joined(head, seq![r] + tail, hour);
    lemma_claimed_joined(seq![r], tail, hour);
    lemma_claimed_joined(head, tail, hour);
    assert(minutes_claimed(seq![r], hour) == 0) by {
        assert(seq![r].drop_last() =~= Seq::<Routine>::empty());
        assert(minutes_claimed(Seq::<Routine>::empty(), hour) == 0);
    }
    Seq::filter_distributes_over_add(head, seq![r] + tail, marking(hour));
    Seq::filter_distributes_over_add(head, tail, marking(hour));
    tail.lemma_filter_prepend(r, marking(hour));
    assert(routines.filter(marking(hour)) =~= without.filter(marking(hour)));
    if is_covered(routines, hour) {
        let i = choose|i: int| 0 <= i < routines.len() && #[trigger] routines[i].covers(hour);
        if i < k {
            assert(without[i].covers(hour));
        } else {
            assert(without[i - 1].covers(hour));
        }
    }
    if is_covered(without, hour) {
        let i = choose|i: int| 0 <= i < without.len() && #[trigger] without[i].covers(hour);
        if i < k {
            assert(routines[i].covers(hour));
        } else {
            assert(routines[i + 1].covers(hour));
        }
    }
}

/// A routine that spans several hours closes every slot strictly between the
/// hour in which it begins and the hour in which it ends: nothing is left of
/// such a slot.
pub proof fn lemma_spanning_routine_closes(date: Date, routines: Seq<Routine>, k: int, hour: u8)
    requires
        0 <= k < routines.len(),
        routines[k].start_time.hour < hour < routines[k].end_time.hour,
    ensures
        overlaid(date, routines, hour).remaining == 0,
        !overlaid(date, routines, hour).open,
        overlaid(date, routines, hour).labels.contains(routines[k].title),
{
    assert(routines[k].covers(hour));
    let marked = routines.filter(marking(hour));
    routines.lemma_filter_contains(marking(hour), k);
    let j = choose|j: int| 0 <= j < marked.len() && marked[j] == routines[k];
    assert(titles(marked)[j] == routines[k].title);
}

/// Over an hour that no routine marks, the slot stays untouched.
pub proof fn lemma_unmarked_slot_is_fresh(date: Date, routines: Seq<Routine>, hour: u8)
    requires
        forall|i: int| 0 <= i < routines.len() ==> !(#[trigger] routines[i]).marks(hour),
    ensures
        overlaid(date, routines, hour) == fresh_slot(date, hour),
    decreases routines.len(),
{
    let f = marking(hour);
    assert(routines.all(|r: Routine| !f(r)));
    routines.lemma_all_neg_filter_empty(f);
    assert(titles(routines.filter(f)) =~= Seq::<String>::empty());
    lemma_nothing_claimed(routines, hour);
}

proof fn lemma_nothing_claimed(routines: Seq<Routine>, hour: u8)
    requires
        forall|i: int| 0 <= i < routines.len() ==> !(#[trigger] routines[i]).marks(hour),
    ensures
        minutes_claimed(routines, hour) == 0,
    decreases routines.len(),
{
    if routines.len() > 0 {
        assert(!routines[routines.len() - 1].marks(hour));
        lemma_nothing_claimed(routines.drop_last(), hour);
    }
}

/// Selects the routines that apply on `date`, in their order.
pub fn get_day_static_schedule(routines: Vec<Routine>, date: &Date) -> (active: Vec<Routine>)
    ensures
        active@ == routines@.filter(active_on(*date)),
{
    let ghost all = routines@;
    let mut rest = routines;
    let mut active: Vec<Routine> = Vec::new();
    proof {
        reveal(Seq::filter);
        assert(all.skip(all.len() as int) =~= Seq::<Routine>::empty());
    }
    while rest.len() > 0
        invariant
            rest@ == all.take(rest.len() as int),
            rest.len() <= all.len(),
            active@ == all.skip(rest.len() as int).filter(active_on(*date)),
        decreases rest.len(),
    {
        let ghost later = all.skip(rest.len() as int);
        let routine = rest.pop().unwrap();
        proof {
            assert(all.skip(rest.len() as int) =~= seq![routine] + later);
            later.lemma_filter_prepend(routine, active_on(*date));
        }
        if routine.is_active_on(date) {
            active.insert(0, routine);
            assert(active@ =~= seq![routine] + later.filter(active_on(*date)));
        }
    }
    proof {
        assert(all.skip(0) =~= all);
    }
    active
}

/// Lays `routines` over the untouched slot of `hour` on `date`, one after
/// another.
pub fn overlay_slot(date: Date, hour: u8, routines: &Vec<Routine>) -> (slot: SchedItem)
    ensures
        slot@ == overlaid(date, routines@, hour),
{
    let mut slot = SchedItem::fresh(date, hour);
    let mut j: usize = 0;
    proof {
        reveal(Seq::filter);
        assert(routines@.take(0) =~= Seq::<Routine>::empty());
        assert(titles(Seq::<Routine>::empty()) =~= Seq::<String>::empty());
    }
    while j < routines.len()
        invariant
            j <= routines.len(),
            slot@ == overlaid(date, routines@.take(j as int), hour),
        decreases routines.len() - j,
    {
        let routine = &routines[j];
        let ghost seen = routines@.take(j as int);
        proof {
            let next = routines@.take(j + 1);
            assert(next =~= seen.push(*routine));
            assert(next.drop_last() =~= seen);
            seen.lemma_filter_push(*routine, marking(hour));
            seen.filter(marking(hour)).lemma_push_map_commute(|r: Routine| r.title, *routine);
            if is_covered(seen, hour) {
                let i = choose|i: int| 0 <= i < seen.len() && #[trigger] seen[i].covers(hour);
                assert(next[i].covers(hour));
            }
            if is_covered(next, hour) && !routine.covers(hour) {
                let i = choose|i: int| 0 <= i < next.len() && #[trigger] next[i].covers(hour);
                assert(seen[i].covers(hour));
            }
            if routine.covers(hour) {
                assert(next[j as int].covers(hour));
            }
        }
        if routine.start_time.hour == hour {
            slot.title.push(routine.title.clone());
            slot.time_left_mins = slot.time_left_mins.saturating_sub(routine.start_time.minute);
            if slot.time_left_mins == 0 {
                slot.has_time = false;
            }
        } else if routine.start_time.hour < hour && routine.end_time.hour > hour {
            slot.title.push(routine.title.clone());
            slot.has_time = false;
            slot.time_left_mins = 0;
        }
        j += 1;
    }
    proof {
        assert(routines@.take(routines.len() as int) =~= routines@);
    }
    slot
}

} // verus!
