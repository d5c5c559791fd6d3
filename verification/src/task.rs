use crate::calendar::{local_now, Timestamp};
use vstd::prelude::*;
use vstd::seq_lib::{to_multiset_insert, to_multiset_len};

verus! {

/// One item of the backlog. Durations are whole minutes. Importance is meant
/// to run from 1 to 10, and the time allotted to stay within the time
/// required; neither is taken for granted.
#[derive(Clone, Debug, PartialEq, Eq)]
pub struct Task {
    pub id: Option<String>,
    pub name: String,
    pub description: String,
    pub due_by: Timestamp,
    pub imp_lvl: u8,
    pub req_time: u32,
    pub time_alloted: u32,
    pub is_done: bool,
}

impl Task {
    /// The priority score at `now`: ten points per level of importance, less
    /// one point per whole minute left until the task is due. The lowest
    /// score comes first, and minutes run into the thousands where
    /// importance adds a hundred at most: as a rule the task that is due
    /// later stands before the one that is due sooner.
    pub open spec fn score(self, now: Timestamp) -> int {
        self.imp_lvl * 10 - self.due_by.minutes_after(now)
    }

    /// The task is still open and due strictly after `now`.
    pub open spec fn is_pending(self, now: Timestamp) -> bool {
        !self.is_done && self.due_by.instant() > now.instant()
    }

    /// The task can still take minutes: it is open and short of its required time.
    pub open spec fn wants_time(self) -> bool {
        !self.is_done && self.time_alloted < self.req_time
    }

    /// Minutes still missing; zero for a task that has all it requires, or more.
    pub open spec fn shortfall(self) -> nat {
        if self.time_alloted < self.req_time {
            (self.req_time - self.time_alloted) as nat
        } else {
            0
        }
    }

    /// Computes the priority score at `now`.
    pub fn priority_score(&self, now: &Timestamp) -> (s: i128)
        ensures
            s == self.score(*now),
    {
        let weight: i128 = self.imp_lvl as i128 * 10;
        weight - self.due_by.whole_minutes_after(now)
    }

    /// Tells whether the task is still open and due strictly after `now`.
    pub fn pending(&self, now: &Timestamp) -> (b: bool)
        ensures
            b == self.is_pending(*now),
    {
        !self.is_done && self.due_by.is_after(now)
    }
}

/// The tasks that are pending at `now`.
pub open spec fn pending_at(now: Timestamp) -> spec_fn(Task) -> bool {
    |t: Task| t.is_pending(now)
}

/// The tasks whose score at `now` is exactly `v`.
pub open spec fn scored(now: Timestamp, v: int) -> spec_fn(Task) -> bool {
    |t: Task| t.score(now) == v
}

/// Scores never fall from one position to the next.
pub open spec fn ascending(s: Seq<Task>, now: Timestamp) -> bool {
    forall|i: int, j: int| 0 <= i <= j < s.len() ==> s[i].score(now) <= s[j].score(now)
}

/// `sorted` is the priority order of `tasks` at `now`: it holds the pending
/// tasks, each as often as `tasks` has it, and no others; the lowest score
/// comes first; and the tasks that share a score stand in the order in which
/// `tasks` has them.
pub open spec fn is_priority_order(sorted: Seq<Task>, tasks: Seq<Task>, now: Timestamp) -> bool {
    &&& sorted.to_multiset() == tasks.filter(pending_at(now)).to_multiset()
    &&& ascending(sorted, now)
    &&& forall|v: int| #[trigger]
        sorted.filter(scored(now, v)) == tasks.filter(pending_at(now)).filter(scored(now, v))
}

proof fn lemma_filter_none(s: Seq<Task>, now: Timestamp, v: int)
    requires
        forall|i: int| 0 <= i < s.len() ==> s[i].score(now) != v,
    ensures
        s.filter(scored(now, v)) == Seq::<Task>::empty(),
{
    let f = scored(now, v);
    assert(s.all(|x: Task| !f(x)));
    s.lemma_all_neg_filter_empty(f);
    assert(s.filter(f) =~= Seq::<Task>::empty());
}

/// Putting `x` after every lower score and before every other one gives, score
/// by score, what putting it in front gives.
proof fn lemma_insert_keeps_runs(s: Seq<Task>, p: int, x: Task, now: Timestamp, v: int)
    requires
        0 <= p <= s.len(),
        forall|i: int| 0 <= i < p ==> s[i].score(now) < x.score(now),
    ensures
        s.insert(p, x).filter(scored(now, v)) == (seq![x] + s).filter(scored(now, v)),
{
    let f = scored(now, v);
    let head = s.take(p);
    let tail = s.skip(p);
    assert(s.insert(p, x) =~= head + (seq![x] + tail));
    assert(s =~= head + tail);
    Seq::filter_distributes_over_add(head, seq![x] + tail, f);
    Seq::filter_distributes_over_add(head, tail, f);
    tail.lemma_filter_prepend(x, f);
    s.lemma_filter_prepend(x, f);
    if f(x) {
        lemma_filter_none(head, now, v);
        assert(s.filter(f) =~= tail.filter(f));
        assert(s.insert(p, x).filter(f) =~= seq![x] + tail.filter(f));
    } else {
        assert(s.insert(p, x).filter(f) =~= head.filter(f) + tail.filter(f));
    }
}

proof fn lemma_runs_decide(a: Seq<Task>, b: Seq<Task>, now: Timestamp)
    requires
        ascending(a, now),
        ascending(b, now),
        forall|v: int| #[trigger] a.filter(scored(now, v)) == b.filter(scored(now, v)),
    ensures
        a == b,
    decreases a.len(),
{
    if a.len() == 0 || b.len() == 0 {
        let (full, none) = if a.len() == 0 {
            (b, a)
        } else {
            (a, b)
        };
        if full.len() > 0 {
            let f = scored(now, full[0].score(now));
            full.lemma_filter_contains(f, 0);
            none.lemma_filter_len(f);
            assert(a.filter(f) == b.filter(f));
        }
        assert(a =~= b);
    } else {
        let va = a.last().score(now);
        let vb = b.last().score(now);
        let (a0, b0) = (a.drop_last(), b.drop_last());
        assert(a =~= a0.push(a.last()));
        assert(b =~= b0.push(b.last()));
        assert forall|v: int| #[trigger]
            a.filter(scored(now, v)) == if a.last().score(now) == v {
                a0.filter(scored(now, v)).push(a.last())
            } else {
                a0.filter(scored(now, v))
            } by {
            a0.lemma_filter_push(a.last(), scored(now, v));
        }
        assert forall|v: int| #[trigger]
            b.filter(scored(now, v)) == if b.last().score(now) == v {
                b0.filter(scored(now, v)).push(b.last())
            } else {
                b0.filter(scored(now, v))
            } by {
            b0.lemma_filter_push(b.last(), scored(now, v));
        }
        assert(va <= vb) by {
            let f = scored(now, va);
            assert(a.filter(f) == b.filter(f));
            let x = b.filter(f).last();
            b.lemma_filter_pred(f, b.filter(f).len() - 1);
            assert(b.filter(f).contains(x));
            b.lemma_filter_contains_rev(f, x);
            let j = choose|j: int| 0 <= j < b.len() && b[j] == x;
            assert(b[j].score(now) <= b[b.len() - 1].score(now));
        }
        assert(vb <= va) by {
            let f = scored(now, vb);
            assert(a.filter(f) == b.filter(f));
            let x = a.filter(f).last();
            a.lemma_filter_pred(f, a.filter(f).len() - 1);
            assert(a.filter(f).contains(x));
            a.lemma_filter_contains_rev(f, x);
            let j = choose|j: int| 0 <= j < a.len() && a[j] == x;
            assert(a[j].score(now) <= a[a.len() - 1].score(now));
        }
        assert(a.filter(scored(now, va)) == b.filter(scored(now, va)));
        assert(a.last() == b.last()) by {
            assert(a0.filter(scored(now, va)).push(a.last()).last() == a.last());
            assert(b0.filter(scored(now, va)).push(b.last()).last() == b.last());
        }
        assert forall|v: int| #[trigger]
            a0.filter(scored(now, v)) == b0.filter(scored(now, v)) by {
            assert(a.filter(scored(now, v)) == b.filter(scored(now, v)));
            if v == va {
                assert(a0.filter(scored(now, v)) =~= a.filter(scored(now, v)).drop_last());
                assert(b0.filter(scored(now, v)) =~= b.filter(scored(now, v)).drop_last());
            }
        }
        assert(ascending(a0, now)) by {
            assert forall|i: int, j: int| 0 <= i <= j < a0.len() implies a0[i].score(now)
                <= a0[j].score(now) by {
                assert(a[i].score(now) <= a[j].score(now));
            }
        }
        assert(ascending(b0, now)) by {
            assert forall|i: int, j: int| 0 <= i <= j < b0.len() implies b0[i].score(now)
                <= b0[j].score(now) by {
                assert(b[i].score(now) <= b[j].score(now));
            }
        }
        lemma_runs_decide(a0, b0, now);
    }
}

/// A backlog has one priority order at a given instant, and no other.
pub proof fn lemma_priority_order_is_unique(
    a: Seq<Task>,
    b: Seq<Task>,
    tasks: Seq<Task>,
    now: Timestamp,
)
    requires
        is_priority_order(a, tasks, now),
        is_priority_order(b, tasks, now),
    ensures
        a == b,
{
    assert forall|v: int| #[trigger] a.filter(scored(now, v)) == b.filter(scored(now, v)) by {
        assert(a.filter(scored(now, v)) == tasks.filter(pending_at(now)).filter(scored(now, v)));
        assert(b.filter(scored(now, v)) == tasks.filter(pending_at(now)).filter(scored(now, v)));
    }
    lemma_runs_decide(a, b, now);
}

/// The priority order is as long as the run of pending tasks, every task in
/// it is pending, and every pending task of the backlog is in it.
pub proof fn lemma_priority_order_keeps_pending(sorted: Seq<Task>, tasks: Seq<Task>, now: Timestamp)
    requires
        is_priority_order(sorted, tasks, now),
    ensures
        sorted.len() == tasks.filter(pending_at(now)).len(),
        forall|i: int| 0 <= i < sorted.len() ==> (#[trigger] sorted[i]).is_pending(now),
        forall|i: int|
            0 <= i < tasks.len() && (#[trigger] tasks[i]).is_pending(now) ==> sorted.contains(
                tasks[i],
            ),
{
    let kept = tasks.filter(pending_at(now));
    assert forall|i: int| 0 <= i < sorted.len() implies (#[trigger] sorted[i]).is_pending(now) by {
        let f = scored(now, sorted[i].score(now));
        sorted.lemma_filter_contains(f, i);
        assert(sorted.filter(f) == kept.filter(f));
        kept.lemma_filter_contains_rev(f, sorted[i]);
        tasks.lemma_filter_contains_rev(pending_at(now), sorted[i]);
        let j = choose|j: int| 0 <= j < kept.len() && kept[j] == sorted[i];
        tasks.lemma_filter_pred(pending_at(now), j);
    }
    assert forall|i: int| 0 <= i < tasks.len() && (#[trigger] tasks[i]).is_pending(
        now,
    ) implies sorted.contains(tasks[i]) by {
        let f = scored(now, tasks[i].score(now));
        tasks.lemma_filter_contains(pending_at(now), i);
        let j = choose|j: int| 0 <= j < kept.len() && kept[j] == tasks[i];
        kept.lemma_filter_contains(f, j);
        assert(sorted.filter(f) == kept.filter(f));
        sorted.lemma_filter_contains_rev(f, tasks[i]);
    }
    to_multiset_len(sorted);
    to_multiset_len(kept);
}

/// The priority order of `tasks` at `now`.
pub open spec fn priority_order(tasks: Seq<Task>, now: Timestamp) -> Seq<Task> {
    choose|sorted: Seq<Task>| is_priority_order(sorted, tasks, now)
}

/// Filters the backlog down to the tasks that are pending at `now` and orders
/// them by score, lowest first; ties keep the order of the backlog.
pub fn prioritize(tasks: Vec<Task>, now: Timestamp) -> (sorted: Vec<Task>)
    ensures
        is_priority_order(sorted@, tasks@, now),
        sorted@ == priority_order(tasks@, now),
{
    let ghost all = tasks@;
    let mut rest = tasks;
    let mut sorted: Vec<Task> = Vec::new();
    proof {
        assert(all.skip(all.len() as int) =~= Seq::<Task>::empty());
        assert(Seq::<Task>::empty().filter(pending_at(now)) =~= Seq::<Task>::empty()) by {
            reveal(Seq::filter);
        }
        assert(sorted@ =~= Seq::<Task>::empty());
        assert forall|v: int| #[trigger]
            sorted@.filter(scored(now, v)) == all.skip(all.len() as int).filter(
                pending_at(now),
            ).filter(scored(now, v)) by {
            reveal(Seq::filter);
        }
    }
    while rest.len() > 0
        invariant
            rest@ == all.take(rest.len() as int),
            rest.len() <= all.len(),
            is_priority_order(sorted@, all.skip(rest.len() as int), now),
        decreases rest.len(),
    {
        let ghost before = sorted@;
        let ghost later = all.skip(rest.len() as int);
        let task = rest.pop().unwrap();
        proof {
            assert(all.skip(rest.len() as int) =~= seq![task] + later);
            later.lemma_filter_prepend(task, pending_at(now));
            let kept = later.filter(pending_at(now));
            assert(seq![task] + kept =~= kept.insert(0, task));
            to_multiset_insert(kept, 0, task);
            assert(Seq::<Task>::empty() + kept =~= kept);
        }
        if task.pending(&now) {
            let mine: i128 = task.priority_score(&now);
            let mut p: usize = 0;
            while p < sorted.len() && sorted[p].priority_score(&now) < mine
                invariant
                    p <= sorted.len(),
                    mine == task.score(now),
                    forall|i: int| 0 <= i < p ==> sorted[i].score(now) < mine,
                decreases sorted.len() - p,
            {
                p += 1;
            }
            sorted.insert(p, task);
            proof {
                let kept = later.filter(pending_at(now));
                to_multiset_insert(before, p as int, task);
                assert forall|v: int| #[trigger]
                    sorted@.filter(scored(now, v)) == (seq![task] + kept).filter(
                        scored(now, v),
                    ) by {
                    lemma_insert_keeps_runs(before, p as int, task, now, v);
                    before.lemma_filter_prepend(task, scored(now, v));
                    kept.lemma_filter_prepend(task, scored(now, v));
                }
                assert forall|i: int, j: int| 0 <= i <= j < sorted.len() implies sorted[i].score(
                    now,
                ) <= sorted[j].score(now) by {
                    if i < p && j > p {
                        assert(before[i].score(now) <= before[j - 1].score(now));
                    } else if i > p {
                        assert(before[i - 1].score(now) <= before[j - 1].score(now));
                    } else if i == p && j > p {
                        assert(before[p as int].score(now) <= before[j - 1].score(now));
                    }
                }
            }
        }
    }
    proof {
        assert(all.skip(0) =~= all);
        lemma_priority_order_is_unique(sorted@, priority_order(all, now), all, now);
    }
    sorted
}

/// Reads the clock and puts the backlog in the priority order of that instant.
pub fn get_all_tasks_sorted(tasks: Vec<Task>) -> (sorted: Vec<Task>)
    ensures
        exists|now: Timestamp| sorted@ == #[trigger] priority_order(tasks@, now),
{
    let now = local_now();
    prioritize(tasks, now)
}

} // verus!
