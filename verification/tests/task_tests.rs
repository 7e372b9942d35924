use zen::task::{Status, Task, Transition};

fn todo_task() -> Task {
    Task::new("task".into(), "".into(), Status::Todo)
}

fn now_ms() -> i64 {
    chrono::Utc::now().timestamp_millis()
}

#[test]
fn status_labels() {
    assert_eq!(Status::Todo.label(), "TODO");
    assert_eq!(Status::Doing.label(), "DOING");
    assert_eq!(Status::Done.label(), "DONE");
}

#[test]
fn task_new_initial_state() {
    let t = todo_task();
    assert_eq!(t.title, "task");
    assert_eq!(t.status, Status::Todo);
    assert!(t.transitions.is_empty());
    assert!(t.parent_id.is_none());
    assert!(t.children.is_empty());
}

#[test]
fn transition_to_updates_status_and_records_history() {
    let mut t = todo_task();
    t.transition_to(Status::Doing);
    assert_eq!(t.status, Status::Doing);
    assert_eq!(t.transitions.len(), 1);
    assert_eq!(t.transitions[0].from, Status::Todo);
    assert_eq!(t.transitions[0].to, Status::Doing);
}

#[test]
fn transition_to_chains_correctly() {
    let mut t = todo_task();
    t.transition_to(Status::Doing);
    t.transition_to(Status::Done);
    assert_eq!(t.status, Status::Done);
    assert_eq!(t.transitions.len(), 2);
    assert_eq!(t.transitions[1].from, Status::Doing);
    assert_eq!(t.transitions[1].to, Status::Done);
}

#[test]
fn time_in_never_visited_status_returns_zero() {
    let t = todo_task();
    assert_eq!(t.time_in(&Status::Done), 0);
    assert_eq!(t.time_in(&Status::Doing), 0);
}

#[test]
fn time_in_completed_span_is_exact() {
    let mut t = todo_task();
    let start = now_ms() - 100_000;
    t.created_at = start;
    t.transitions.push(Transition { from: Status::Todo, to: Status::Doing, at: start + 60_000 });
    t.status = Status::Doing;
    assert_eq!(t.time_in(&Status::Todo), 60);
}

#[test]
fn time_in_current_status_accumulates() {
    let mut t = todo_task();
    t.created_at = now_ms() - 10_000;
    let secs = t.time_in(&Status::Todo);
    assert!(secs >= 9, "expected >= 9s, got {secs}");
}

#[test]
fn time_in_sums_multiple_spans() {
    let mut t = todo_task();
    let base = now_ms() - 300_000;
    t.created_at = base;
    let t1 = base + 50_000;
    let t2 = t1 + 30_000;
    let t3 = t2 + 40_000;
    t.transitions.push(Transition { from: Status::Todo, to: Status::Doing, at: t1 });
    t.transitions.push(Transition { from: Status::Doing, to: Status::Todo, at: t2 });
    t.transitions.push(Transition { from: Status::Todo, to: Status::Doing, at: t3 });
    t.status = Status::Doing;
    assert_eq!(t.time_in(&Status::Todo), 90);
    let doing = t.time_in(&Status::Doing);
    assert!(doing >= 30);
}

#[test]
fn time_in_at_counts_whole_seconds_of_each_span() {
    let mut t = todo_task();
    t.created_at = 1_000;
    t.transitions.push(Transition { from: Status::Todo, to: Status::Doing, at: 4_500 });
    t.status = Status::Doing;
    assert_eq!(t.time_in_at(&Status::Todo, 10_000), 3);
    assert_eq!(t.time_in_at(&Status::Doing, 10_000), 5);
    assert_eq!(t.time_in_at(&Status::Done, 10_000), 0);
}

#[test]
fn transition_at_records_the_given_instant() {
    let mut t = todo_task();
    t.transition_at(Status::Done, 42_000);
    assert_eq!(t.status, Status::Done);
    assert_eq!(t.transitions[0].at, 42_000);
    assert_eq!(t.transitions[0].from, Status::Todo);
}
