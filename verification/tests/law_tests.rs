use zen::board::{App, Column, ViewMode};
use zen::task::{Status, Task, Transition};

fn no_projects() -> [Option<String>; 10] {
    Default::default()
}

fn task(title: &str, status: Status) -> Task {
    Task::new(title.into(), "".into(), status)
}

fn titles(app: &App) -> Vec<String> {
    app.tasks.iter().map(|t| t.title.clone()).collect()
}

#[test]
fn undo_gives_back_the_tasks_before_a_change() {
    let a = task("a", Status::Todo);
    let b = task("b", Status::Todo);
    let bid = b.id;
    let mut app = App::new(vec![a, b], no_projects());
    let before = titles(&app);
    app.push_undo();
    app.delete_task(bid);
    assert_eq!(titles(&app), vec!["a".to_string()]);
    app.undo();
    assert_eq!(titles(&app), before);
    assert_eq!(app.status_message.as_deref(), Some("Undo"));
}

#[test]
fn redo_after_undo_gives_back_the_change() {
    let a = task("a", Status::Todo);
    let b = task("b", Status::Todo);
    let bid = b.id;
    let mut app = App::new(vec![a, b], no_projects());
    app.push_undo();
    app.delete_task(bid);
    app.undo();
    app.redo();
    assert_eq!(titles(&app), vec!["a".to_string()]);
    assert_eq!(app.status_message.as_deref(), Some("Redo"));
}

#[test]
fn undo_with_empty_history_changes_nothing() {
    let mut app = App::new(vec![task("a", Status::Todo)], no_projects());
    app.undo();
    assert_eq!(titles(&app), vec!["a".to_string()]);
    assert!(app.status_message.is_none());
}

#[test]
fn undo_history_keeps_fifty_entries() {
    let mut app = App::new(vec![task("a", Status::Todo)], no_projects());
    for _ in 0..60 {
        app.push_undo();
    }
    assert_eq!(app.undo_stack.len(), 50);
    assert!(app.redo_stack.is_empty());
}

#[test]
fn flagging_twice_gives_back_the_task() {
    let t = task("a", Status::Todo);
    let id = t.id;
    let mut app = App::new(vec![t], no_projects());
    app.toggle_flag_pill(1);
    assert_eq!(app.active_highlight, Some(1));
    assert!(app.flag_selected_task());
    assert_eq!(app.task_ref(id).unwrap().flags, 2);
    assert!(app.flag_selected_task());
    assert_eq!(app.task_ref(id).unwrap().flags, 0);
}

#[test]
fn flag_clear_prompt_names_the_active_flags() {
    let mut app = App::new(vec![task("a", Status::Todo)], no_projects());
    app.toggle_flag_pill(0);
    app.toggle_flag_pill(2);
    app.begin_flag_clear();
    assert!(app.flag_clear_confirm);
    assert_eq!(
        app.status_message.as_deref(),
        Some("Clear flag 1, 3 highlights? (Enter to confirm, Esc to cancel)")
    );
}

#[test]
fn folding_twice_gives_back_the_folded_set() {
    let mut parent = task("p", Status::Todo);
    let mut child = task("c", Status::Todo);
    child.parent_id = Some(parent.id);
    parent.children.push(child.id);
    let pid = parent.id;
    let mut app = App::new(vec![parent, child], no_projects());
    app.toggle_fold_selected();
    assert!(app.collapsed.contains(&pid));
    app.toggle_fold_selected();
    assert!(app.collapsed.is_empty());
}

#[test]
fn board_shows_only_tasks_without_children() {
    let mut parent = task("p", Status::Todo);
    let mut child = task("c", Status::Todo);
    child.parent_id = Some(parent.id);
    parent.children.push(child.id);
    let other = task("o", Status::Todo);
    let mut app = App::new(vec![parent, child, other], no_projects());
    app.view_mode = ViewMode::Board;
    for col in [Column::Todo, Column::Doing, Column::Done] {
        assert!(app.board_tasks_for(col).iter().all(|t| t.children.is_empty()));
    }
}

#[test]
fn done_column_lists_newest_completion_first() {
    let mut a = task("older", Status::Done);
    let mut b = task("newer", Status::Done);
    a.transitions.push(Transition { from: Status::Doing, to: Status::Done, at: 1_000 });
    b.transitions.push(Transition { from: Status::Doing, to: Status::Done, at: 5_000 });
    let mut app = App::new(vec![a, b], no_projects());
    app.view_mode = ViewMode::Board;
    let done = app.board_tasks_for(Column::Done);
    assert_eq!(done.len(), 2);
    assert_eq!(done[0].title, "newer");
    assert_eq!(done[1].title, "older");
}

#[test]
fn parent_becomes_done_when_last_child_is_done_and_todo_again_after() {
    let mut parent = task("p", Status::Todo);
    let mut child = task("c", Status::Todo);
    let (pid, cid) = (parent.id, child.id);
    child.parent_id = Some(pid);
    parent.children.push(cid);
    let mut app = App::new(vec![parent, child], no_projects());
    app.cursor[0] = 1;
    app.tree_toggle_done();
    assert_eq!(app.task_ref(pid).unwrap().status, Status::Done);
    app.focused_col = Column::Done;
    app.cursor[2] = 1;
    app.tree_toggle_done();
    assert_eq!(app.task_ref(cid).unwrap().status, Status::Todo);
    assert_eq!(app.task_ref(pid).unwrap().status, Status::Todo);
}

#[test]
fn double_d_deletes_the_selected_task() {
    let t = task("a", Status::Todo);
    let id = t.id;
    let mut app = App::new(vec![t], no_projects());
    assert!(!app.try_delete_dd());
    assert_eq!(app.status_message.as_deref(), Some("d again to delete"));
    assert!(app.try_delete_dd());
    assert!(app.task_ref(id).is_none());
    assert_eq!(app.status_message.as_deref(), Some("Deleted"));
}

#[test]
fn task_ids_are_fresh() {
    let a = task("a", Status::Todo);
    let b = task("b", Status::Todo);
    assert_ne!(a.id, b.id);
    assert!(a.created_at > 0);
}

#[test]
fn sort_toggles_between_age_and_project() {
    let mut app = App::new(vec![], no_projects());
    let first = app.kanban_sort;
    app.cycle_sort();
    assert_ne!(app.kanban_sort, first);
    app.cycle_sort();
    assert_eq!(app.kanban_sort, first);
}

#[test]
fn project_summary_counts_remaining_and_done() {
    let mut projects = no_projects();
    projects[0] = Some("work".to_string());
    projects[2] = Some("home".to_string());
    let a = Task::new("a".into(), "work".into(), Status::Todo);
    let b = Task::new("b".into(), "work".into(), Status::Done);
    let c = Task::new("c".into(), "work".into(), Status::Done);
    let d = Task::new("d".into(), "home".into(), Status::Doing);
    let app = App::new(vec![a, b, c, d], projects);
    let rows = app.project_summary();
    assert_eq!(rows.len(), 2);
    assert_eq!((rows[0].slot, rows[0].name.as_str(), rows[0].remaining, rows[0].done, rows[0].percent), (0, "work", 1, 2, 66));
    assert_eq!((rows[1].slot, rows[1].name.as_str(), rows[1].remaining, rows[1].done, rows[1].percent), (2, "home", 1, 0, 0));
}

#[test]
fn completing_the_last_leaf_completes_every_ancestor() {
    let mut g = task("g", Status::Todo);
    let mut p = task("p", Status::Todo);
    let mut c = task("c", Status::Todo);
    let (gid, pid, cid) = (g.id, p.id, c.id);
    p.parent_id = Some(gid);
    g.children.push(pid);
    c.parent_id = Some(pid);
    p.children.push(cid);
    let mut app = App::new(vec![g, p, c], no_projects());
    app.cursor[0] = 2;
    app.tree_toggle_done();
    assert_eq!(app.task_ref(cid).unwrap().status, Status::Done);
    assert_eq!(app.task_ref(pid).unwrap().status, Status::Done);
    assert_eq!(app.task_ref(gid).unwrap().status, Status::Done);
}

#[test]
fn doing_swap_down_then_up_restores_the_column() {
    let a = task("a", Status::Doing);
    let b = task("b", Status::Doing);
    let c = task("c", Status::Doing);
    let mut app = App::new(vec![a, b, c], no_projects());
    app.view_mode = ViewMode::Board;
    app.focused_col = Column::Doing;
    let ids = |app: &App| -> Vec<String> {
        app.board_tasks_for(Column::Doing).iter().map(|t| t.title.clone()).collect()
    };
    assert_eq!(ids(&app), vec!["a", "b", "c"]);
    app.cursor[1] = 0;
    app.kanban_doing_swap(1);
    assert_eq!(ids(&app), vec!["b", "a", "c"]);
    assert_eq!(app.cursor[1], 1);
    app.kanban_doing_swap(-1);
    assert_eq!(ids(&app), vec!["a", "b", "c"]);
    assert_eq!(app.cursor[1], 0);
    app.cursor[1] = 1;
    app.kanban_doing_swap(1);
    app.kanban_doing_swap(-1);
    assert_eq!(ids(&app), vec!["a", "b", "c"]);
    assert_eq!(app.cursor[1], 1);
}
