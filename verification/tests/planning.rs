use taskflow::calendar::{Date, TimeOfDay, Timestamp};
use taskflow::planner::{create_day_sched, fill_slot, Allotment, DayPlan};
use taskflow::routine::Routine;
use taskflow::slot::SchedItem;
use taskflow::task::{prioritize, Task};

const DAY: Date = Date { year: 2024, month: 5, day: 17 };

fn task(name: &str, required: u32, allotted: u32) -> Task {
    Task {
        id: Some(format!("Tasks:{}", name)),
        name: name.to_string(),
        description: String::new(),
        due_by: Timestamp { secs: 2_000_000_000, nanos: 0 },
        imp_lvl: 5,
        req_time: required,
        time_alloted: allotted,
        is_done: false,
    }
}

fn routine(title: &str, from: (u8, u8), to: (u8, u8)) -> Routine {
    Routine {
        id: None,
        title: title.to_string(),
        start_date: DAY,
        end_date: DAY,
        imp: "5".to_string(),
        start_time: TimeOfDay { hour: from.0, minute: from.1 },
        end_time: TimeOfDay { hour: to.0, minute: to.1 },
        weekdays: Vec::new(),
    }
}

fn slot(hour: u8, open: bool, left: u8, labels: &[&str]) -> SchedItem {
    SchedItem {
        id: None,
        date: DAY,
        represented_hour_start: hour,
        has_time: open,
        time_left_mins: left,
        title: labels.iter().map(|l| l.to_string()).collect(),
    }
}

fn entry(hour: u8, task: usize, minutes: u8, allocated: u32) -> Allotment {
    Allotment { hour, task, minutes, allocated }
}

fn given(plan: &DayPlan, task: usize) -> u32 {
    plan.ledger.iter().filter(|e| e.task == task).map(|e| e.minutes as u32).sum()
}

fn taken(plan: &DayPlan, hour: u8) -> u32 {
    plan.ledger.iter().filter(|e| e.hour == hour).map(|e| e.minutes as u32).sum()
}

#[test]
fn an_empty_day_is_24_untouched_slots() {
    let plan = create_day_sched(DAY, &Vec::new(), Vec::new());
    assert_eq!(plan.date, DAY);
    assert_eq!(plan.slots.len(), 24);
    for (hour, s) in plan.slots.iter().enumerate() {
        assert_eq!(*s, slot(hour as u8, true, 60, &[]));
    }
    assert!(plan.tasks.is_empty());
    assert!(plan.ledger.is_empty());
}

#[test]
fn the_seed_scenario_fills_the_first_two_hours() {
    let now = Timestamp { secs: 1_715_936_400, nanos: 0 };
    let a = Task {
        id: Some("Tasks:a".to_string()),
        name: "A".to_string(),
        description: String::new(),
        due_by: Timestamp { secs: now.secs + 30 * 60, nanos: 0 },
        imp_lvl: 9,
        req_time: 90,
        time_alloted: 0,
        is_done: false,
    };
    let b = Task {
        id: Some("Tasks:b".to_string()),
        name: "B".to_string(),
        description: String::new(),
        due_by: Timestamp { secs: now.secs + 2 * 24 * 60 * 60, nanos: 0 },
        imp_lvl: 2,
        req_time: 30,
        time_alloted: 0,
        is_done: false,
    };
    assert_eq!(a.priority_score(&now), 60);
    assert_eq!(b.priority_score(&now), -2860);
    let sorted = prioritize(vec![a.clone(), b.clone()], now);
    assert_eq!(sorted, vec![b.clone(), a.clone()]);

    let plan = create_day_sched(DAY, &Vec::new(), sorted);
    assert_eq!(plan.slots[0], slot(0, false, 0, &["B", "A"]));
    assert_eq!(plan.slots[1], slot(1, false, 0, &["A"]));
    for hour in 2..24usize {
        assert_eq!(plan.slots[hour], slot(hour as u8, true, 60, &[]));
    }
    assert_eq!(plan.tasks, vec![Task { time_alloted: 30, ..b }, Task { time_alloted: 90, ..a }]);
    assert_eq!(plan.ledger, vec![entry(0, 0, 30, 30), entry(0, 1, 30, 30), entry(1, 1, 60, 90)]);
}

#[test]
fn a_task_takes_the_smaller_of_need_and_capacity() {
    let plan = create_day_sched(DAY, &Vec::new(), vec![task("long", 150, 0)]);
    assert_eq!(plan.slots[0], slot(0, false, 0, &["long"]));
    assert_eq!(plan.slots[1], slot(1, false, 0, &["long"]));
    assert_eq!(plan.slots[2], slot(2, true, 30, &["long"]));
    assert_eq!(plan.slots[3], slot(3, true, 60, &[]));
    assert_eq!(plan.tasks[0].time_alloted, 150);
    assert_eq!(plan.ledger, vec![entry(0, 0, 60, 60), entry(1, 0, 60, 120), entry(2, 0, 30, 150)]);
}

#[test]
fn a_need_above_255_minutes_is_not_cut_short() {
    let plan = create_day_sched(DAY, &Vec::new(), vec![task("huge", 300, 0)]);
    assert_eq!(plan.tasks[0].time_alloted, 300);
    assert_eq!(plan.ledger.len(), 5);
    assert_eq!(plan.slots[4], slot(4, false, 0, &["huge"]));
    assert_eq!(plan.slots[5], slot(5, true, 60, &[]));
}

#[test]
fn a_slot_closes_at_four_minutes_left() {
    let plan = create_day_sched(DAY, &Vec::new(), vec![task("a", 56, 0), task("b", 10, 0)]);
    assert_eq!(plan.slots[0], slot(0, false, 4, &["a"]));
    assert_eq!(plan.slots[1], slot(1, true, 50, &["b"]));
    assert_eq!(plan.ledger, vec![entry(0, 0, 56, 56), entry(1, 1, 10, 10)]);
}

#[test]
fn a_slot_stays_open_at_five_minutes_left() {
    let plan = create_day_sched(DAY, &Vec::new(), vec![task("a", 55, 0), task("b", 10, 0)]);
    assert_eq!(plan.slots[0], slot(0, false, 0, &["a", "b"]));
    assert_eq!(plan.slots[1], slot(1, true, 55, &["b"]));
    assert_eq!(
        plan.ledger,
        vec![entry(0, 0, 55, 55), entry(0, 1, 5, 5), entry(1, 1, 5, 10)]
    );
}

#[test]
fn done_and_satisfied_tasks_get_nothing() {
    let mut done = task("done", 40, 0);
    done.is_done = true;
    let backlog = vec![done.clone(), task("full", 30, 30), task("over", 30, 45), task("none", 0, 0), task("open", 20, 5)];
    let plan = create_day_sched(DAY, &Vec::new(), backlog.clone());
    assert_eq!(plan.slots[0], slot(0, true, 45, &["open"]));
    assert_eq!(plan.ledger, vec![entry(0, 4, 15, 20)]);
    assert_eq!(plan.tasks[0], backlog[0]);
    assert_eq!(plan.tasks[1], backlog[1]);
    assert_eq!(plan.tasks[2], backlog[2]);
    assert_eq!(plan.tasks[3], backlog[3]);
    assert_eq!(plan.tasks[4], Task { time_alloted: 20, ..backlog[4].clone() });
}

#[test]
fn tasks_go_where_the_routines_leave_room() {
    let routines = vec![routine("sleep", (0, 0), (7, 30)), routine("gym", (7, 50), (8, 20))];
    let plan = create_day_sched(DAY, &routines, vec![task("read", 70, 0)]);
    assert_eq!(plan.slots[0], slot(0, false, 0, &["sleep", "read"]));
    for hour in 1..7usize {
        assert_eq!(plan.slots[hour], slot(hour as u8, false, 0, &["sleep"]));
    }
    assert_eq!(plan.slots[7], slot(7, false, 0, &["gym", "read"]));
    assert_eq!(plan.slots[8], slot(8, true, 60, &[]));
    assert_eq!(plan.ledger, vec![entry(0, 0, 60, 60), entry(7, 0, 10, 70)]);
}

#[test]
fn an_open_slot_with_little_left_still_gives_it() {
    let routines = vec![routine("late", (0, 57), (0, 59))];
    let plan = create_day_sched(DAY, &routines, vec![task("a", 10, 0)]);
    assert_eq!(plan.slots[0], slot(0, false, 0, &["late", "a"]));
    assert_eq!(plan.slots[1], slot(1, true, 53, &["a"]));
    let idle = create_day_sched(DAY, &routines, Vec::new());
    assert_eq!(idle.slots[0], slot(0, true, 3, &["late"]));
}

#[test]
fn a_day_gives_no_more_than_its_open_minutes() {
    let routines = vec![routine("block", (9, 0), (18, 0))];
    let plan = create_day_sched(DAY, &routines, vec![task("endless", 100_000, 0), task("never", 5, 0)]);
    assert_eq!(plan.tasks[0].time_alloted, 16 * 60);
    assert_eq!(plan.tasks[1].time_alloted, 0);
    assert_eq!(plan.ledger.len(), 16);
    for s in &plan.slots {
        assert!(!s.has_time);
        assert_eq!(s.time_left_mins, 0);
    }
    assert_eq!(plan.slots[9].title, vec!["block".to_string(), "endless".to_string()]);
    assert_eq!(plan.slots[10].title, vec!["block".to_string()]);
}

#[test]
fn an_allotment_near_the_top_of_the_range_does_not_overflow() {
    let plan = create_day_sched(DAY, &Vec::new(), vec![task("edge", u32::MAX, u32::MAX - 10)]);
    assert_eq!(plan.tasks[0].time_alloted, u32::MAX);
    assert_eq!(plan.ledger, vec![entry(0, 0, 10, u32::MAX)]);
    assert_eq!(plan.slots[0], slot(0, true, 50, &["edge"]));
}

#[test]
fn the_ledger_accounts_for_every_task_and_slot() {
    let routines = vec![
        routine("sleep", (0, 0), (6, 0)),
        routine("standup", (9, 30), (9, 45)),
        routine("lunch", (12, 15), (13, 0)),
        routine("meeting", (14, 0), (17, 0)),
    ];
    let mut done = task("done", 100, 10);
    done.is_done = true;
    let backlog = vec![
        task("a", 90, 0),
        task("b", 30, 30),
        done,
        task("c", 58, 0),
        task("d", 500, 120),
        task("e", 7, 9),
        task("f", 3, 0),
    ];
    let plan = create_day_sched(DAY, &routines, backlog.clone());
    assert_eq!(plan.tasks.len(), backlog.len());
    for (i, before) in backlog.iter().enumerate() {
        let after = &plan.tasks[i];
        let minutes = given(&plan, i);
        assert_eq!(after.time_alloted, before.time_alloted + minutes);
        assert!(minutes <= before.req_time.saturating_sub(before.time_alloted));
        if minutes > 0 {
            assert!(after.time_alloted <= after.req_time);
        }
        assert_eq!(*after, Task { time_alloted: after.time_alloted, ..before.clone() });
    }
    let idle = create_day_sched(DAY, &routines, Vec::new());
    for hour in 0..24usize {
        let left = idle.slots[hour].time_left_mins as u32;
        assert_eq!(plan.slots[hour].time_left_mins as u32, left - taken(&plan, hour as u8));
        assert!(plan.slots[hour].time_left_mins <= 60);
        assert_eq!(plan.slots[hour].represented_hour_start as usize, hour);
        let mut labels = idle.slots[hour].title.clone();
        for e in plan.ledger.iter().filter(|e| e.hour as usize == hour) {
            labels.push(backlog[e.task].name.clone());
        }
        assert_eq!(plan.slots[hour].title, labels);
    }
    let mut running = vec![0u32; backlog.len()];
    for e in &plan.ledger {
        running[e.task] += e.minutes as u32;
        assert_eq!(e.allocated, backlog[e.task].time_alloted + running[e.task]);
        assert!(e.minutes >= 1);
    }
    assert_eq!(given(&plan, 0), 90);
    assert_eq!(given(&plan, 3), 58);
    assert_eq!(given(&plan, 4), 380);
    assert_eq!(given(&plan, 6), 3);
}

#[test]
fn filling_one_slot_walks_the_backlog_in_order() {
    let mut s = slot(5, true, 40, &["routine"]);
    let mut tasks = vec![task("a", 10, 0), task("b", 25, 5), task("c", 30, 0)];
    let mut ledger = vec![entry(1, 2, 3, 4)];
    fill_slot(&mut s, &mut tasks, &mut ledger);
    assert_eq!(s, slot(5, false, 0, &["routine", "a", "b", "c"]));
    assert_eq!(tasks[0].time_alloted, 10);
    assert_eq!(tasks[1].time_alloted, 25);
    assert_eq!(tasks[2].time_alloted, 10);
    assert_eq!(
        ledger,
        vec![entry(1, 2, 3, 4), entry(5, 0, 10, 10), entry(5, 1, 20, 25), entry(5, 2, 10, 10)]
    );
}

#[test]
fn filling_a_closed_slot_changes_nothing() {
    let mut s = slot(5, false, 40, &[]);
    let mut tasks = vec![task("a", 10, 0)];
    let mut ledger = Vec::new();
    fill_slot(&mut s, &mut tasks, &mut ledger);
    assert_eq!(s, slot(5, false, 40, &[]));
    assert_eq!(tasks, vec![task("a", 10, 0)]);
    assert!(ledger.is_empty());
}
