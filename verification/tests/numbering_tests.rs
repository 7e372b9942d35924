use zen::board::App;
use zen::numbering::{ViewerEntry, clamp_scroll, row_numbers, viewer_entries};
use zen::task::{Status, Task};

fn no_projects() -> [Option<String>; 10] {
    Default::default()
}

#[test]
fn row_numbers_count_siblings_per_depth() {
    assert_eq!(row_numbers(&vec![0, 1, 1, 2, 1, 0, 1]), vec![1, 1, 2, 1, 3, 2, 1]);
    assert_eq!(row_numbers(&vec![]), Vec::<usize>::new());
    assert_eq!(row_numbers(&vec![0, 2, 2, 0]), vec![1, 1, 1, 2]);
}

#[test]
fn viewer_entries_separate_projects_at_top_level() {
    let a = Task::new("a".into(), "work".into(), Status::Todo);
    let b = Task::new("b".into(), "work".into(), Status::Todo);
    let c = Task::new("c".into(), "".into(), Status::Todo);
    let ids = vec![a.id, b.id, c.id];
    let tasks = vec![a, b, c];
    let e = viewer_entries(&ids, &vec![0, 1, 0], &tasks);
    assert_eq!(
        e,
        vec![
            ViewerEntry::Separator("work".into()),
            ViewerEntry::Row(0),
            ViewerEntry::Row(1),
            ViewerEntry::Separator("INBOX".into()),
            ViewerEntry::Row(2),
        ]
    );
}

#[test]
fn clamp_scroll_keeps_the_last_screen_full() {
    assert_eq!(clamp_scroll(5, 20, 10), 5);
    assert_eq!(clamp_scroll(15, 20, 10), 10);
    assert_eq!(clamp_scroll(3, 5, 10), 0);
}

#[test]
fn child_progress_counts_shown_children() {
    let mut p = Task::new("p".into(), "".into(), Status::Todo);
    let mut c1 = Task::new("c1".into(), "".into(), Status::Done);
    let mut c2 = Task::new("c2".into(), "".into(), Status::Todo);
    c1.parent_id = Some(p.id);
    c2.parent_id = Some(p.id);
    p.children = vec![c1.id, c2.id];
    let (pid, c2id) = (p.id, c2.id);
    let app = App::new(vec![p, c1, c2], no_projects());
    assert_eq!(app.child_progress(pid), Some((1, 2)));
    assert_eq!(app.child_progress(c2id), None);
    assert_eq!(app.child_progress(12345), None);
}

#[test]
fn next_row_marks_the_leaf_or_its_shown_ancestor() {
    let mut p = Task::new("p".into(), "".into(), Status::Todo);
    let mut c = Task::new("c".into(), "".into(), Status::Todo);
    c.parent_id = Some(p.id);
    p.children = vec![c.id];
    let (pid, cid) = (p.id, c.id);
    let app = App::new(vec![p, c], no_projects());
    assert_eq!(app.next_row_id(&vec![pid, cid]), Some(cid));
    assert_eq!(app.next_row_id(&vec![pid]), Some(pid));
    assert_eq!(app.next_row_id(&vec![]), None);
}
