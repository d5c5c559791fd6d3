use taskflow::calendar::Timestamp;
use taskflow::task::{get_all_tasks_sorted, prioritize, Task};

const NOW: Timestamp = Timestamp { secs: 1_700_000_000, nanos: 0 };

fn due_in(minutes: i64) -> Timestamp {
    Timestamp { secs: NOW.secs + minutes * 60, nanos: 0 }
}

fn task(name: &str, importance: u8, due_in_minutes: i64) -> Task {
    Task {
        id: Some(format!("Tasks:{}", name)),
        name: name.to_string(),
        description: format!("about {}", name),
        due_by: due_in(due_in_minutes),
        imp_lvl: importance,
        req_time: 30,
        time_alloted: 0,
        is_done: false,
    }
}

fn names(tasks: &Vec<Task>) -> Vec<String> {
    let mut out = Vec::new();
    for t in tasks {
        out.push(t.name.clone());
    }
    out
}

#[test]
fn score_is_ten_per_level_less_minutes_left() {
    assert_eq!(task("a", 9, 30).priority_score(&NOW), 60);
    assert_eq!(task("b", 2, 2880).priority_score(&NOW), -2860);
    assert_eq!(task("c", 10, 1).priority_score(&NOW), 99);
    assert_eq!(task("d", 1, 100_000).priority_score(&NOW), -99_990);
    assert_eq!(task("e", 0, 0).priority_score(&NOW), 0);
    assert_eq!(task("f", 255, 5).priority_score(&NOW), 2545);
}

#[test]
fn score_counts_whole_minutes_only() {
    let mut t = task("a", 1, 0);
    t.due_by = Timestamp { secs: NOW.secs + 119, nanos: 999_999_999 };
    assert_eq!(t.priority_score(&NOW), 9);
    t.due_by = Timestamp { secs: NOW.secs + 120, nanos: 0 };
    assert_eq!(t.priority_score(&NOW), 8);
}

#[test]
fn score_of_an_overdue_task_grows_with_the_delay() {
    assert_eq!(task("late", 3, -10).priority_score(&NOW), 40);
}

#[test]
fn pending_means_open_and_due_later() {
    assert!(task("a", 1, 1).pending(&NOW));
    assert!(!task("b", 1, 0).pending(&NOW));
    assert!(!task("c", 1, -1).pending(&NOW));
    let mut done = task("d", 1, 10);
    done.is_done = true;
    assert!(!done.pending(&NOW));
    let mut barely = task("e", 1, 0);
    barely.due_by = Timestamp { secs: NOW.secs, nanos: 1 };
    assert!(barely.pending(&NOW));
}

#[test]
fn prioritize_puts_the_lowest_score_first() {
    let sorted = prioritize(vec![task("soon", 9, 30), task("far", 2, 2880), task("mid", 5, 600)], NOW);
    assert_eq!(names(&sorted), vec!["far", "mid", "soon"]);
}

#[test]
fn prioritize_lets_minutes_outweigh_importance() {
    let sorted = prioritize(vec![task("vital", 10, 5000), task("minor", 1, 10)], NOW);
    assert_eq!(names(&sorted), vec!["vital", "minor"]);
    assert_eq!(sorted[0].priority_score(&NOW), -4900);
    assert_eq!(sorted[1].priority_score(&NOW), 0);
}

#[test]
fn prioritize_drops_done_and_overdue_tasks() {
    let mut done = task("done", 5, 100);
    done.is_done = true;
    let sorted = prioritize(
        vec![task("late", 5, -1), done, task("now", 5, 0), task("open", 5, 100)],
        NOW,
    );
    assert_eq!(names(&sorted), vec!["open"]);
}

#[test]
fn prioritize_keeps_ties_in_backlog_order() {
    let first = vec![task("t1", 5, 100), task("t2", 1, 10), task("t5", 6, 110)];
    assert_eq!(first[0].priority_score(&NOW), first[2].priority_score(&NOW));
    assert_eq!(names(&prioritize(first, NOW)), vec!["t1", "t5", "t2"]);
    let second = vec![task("t5", 6, 110), task("t2", 1, 10), task("t1", 5, 100)];
    assert_eq!(names(&prioritize(second, NOW)), vec!["t5", "t1", "t2"]);
}

#[test]
fn prioritize_keeps_every_field_of_a_task() {
    let mut t = task("whole", 4, 90);
    t.time_alloted = 12;
    t.req_time = 77;
    let sorted = prioritize(vec![t.clone()], NOW);
    assert_eq!(sorted, vec![t]);
}

#[test]
fn prioritize_keeps_equal_tasks_as_often_as_they_come() {
    let sorted = prioritize(vec![task("twin", 3, 50), task("other", 3, 40), task("twin", 3, 50)], NOW);
    assert_eq!(names(&sorted), vec!["twin", "twin", "other"]);
}

#[test]
fn prioritize_of_nothing_is_nothing() {
    assert_eq!(prioritize(Vec::new(), NOW), Vec::<Task>::new());
}

#[test]
fn prioritize_orders_a_longer_backlog() {
    let mut backlog = Vec::new();
    let dues = [500, 20, 300, 20, 1000, 45, 300, 7, 2000, 60];
    for (i, due) in dues.iter().enumerate() {
        backlog.push(task(&format!("t{}", i), (i % 10) as u8 + 1, *due));
    }
    let sorted = prioritize(backlog.clone(), NOW);
    assert_eq!(sorted.len(), backlog.len());
    for pair in sorted.windows(2) {
        assert!(pair[0].priority_score(&NOW) <= pair[1].priority_score(&NOW));
    }
    for t in &backlog {
        assert!(sorted.contains(t));
    }
    assert_eq!(names(&sorted), vec!["t8", "t4", "t0", "t2", "t6", "t1", "t5", "t3", "t9", "t7"]);
}

#[test]
fn sorting_by_the_clock_keeps_what_is_due_in_the_far_future() {
    let far = Task { due_by: Timestamp { secs: 200_000_000_000, nanos: 0 }, ..task("far", 5, 0) };
    let farther = Task { due_by: Timestamp { secs: 300_000_000_000, nanos: 0 }, ..task("farther", 5, 0) };
    let past = Task { due_by: Timestamp { secs: 0, nanos: 0 }, ..task("past", 5, 0) };
    let mut done = far.clone();
    done.name = "done".to_string();
    done.is_done = true;
    let sorted = get_all_tasks_sorted(vec![far, past, done, farther]);
    assert_eq!(names(&sorted), vec!["farther", "far"]);
}
