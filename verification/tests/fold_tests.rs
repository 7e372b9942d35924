use zen::board::{App, Column, Mode};
use zen::input::AppAction;
use zen::keys::{KeyCode, KeyPress};
use zen::task::{Status, Task};

fn no_projects() -> [Option<String>; 10] {
    Default::default()
}

fn task(title: &str, status: Status) -> Task {
    Task::new(title.into(), "".into(), status)
}

fn adopt(parent: &mut Task, child: &mut Task) {
    child.parent_id = Some(parent.id);
    parent.children.push(child.id);
}

fn key(c: char) -> KeyPress {
    KeyPress { code: KeyCode::Char(c), ctrl: false, shift: false, alt: false }
}

/// A > (A1 > A1a), A2;  B > B1;  C (Done).
struct Forest {
    app: App,
    a: u128,
    a1: u128,
    a1a: u128,
    a2: u128,
    b: u128,
    b1: u128,
    c: u128,
}

fn forest() -> Forest {
    let mut a = task("A", Status::Todo);
    let mut a1 = task("A1", Status::Todo);
    let mut a1a = task("A1a", Status::Todo);
    let mut a2 = task("A2", Status::Todo);
    let mut b = task("B", Status::Todo);
    let mut b1 = task("B1", Status::Todo);
    let c = task("C", Status::Done);
    adopt(&mut a1, &mut a1a);
    adopt(&mut a, &mut a1);
    adopt(&mut a, &mut a2);
    adopt(&mut b, &mut b1);
    let (ia, ia1, ia1a, ia2, ib, ib1, ic) = (a.id, a1.id, a1a.id, a2.id, b.id, b1.id, c.id);
    let app = App::new(vec![a, a1, a1a, a2, b, b1, c], no_projects());
    Forest { app, a: ia, a1: ia1, a1a: ia1a, a2: ia2, b: ib, b1: ib1, c: ic }
}

#[test]
fn fold_all_folds_tasks_with_children() {
    let mut f = forest();
    f.app.fold_all();
    assert!(f.app.collapsed.contains(&f.a));
    assert!(f.app.collapsed.contains(&f.a1));
    assert!(f.app.collapsed.contains(&f.b));
    assert!(!f.app.collapsed.contains(&f.a1a));
    assert!(!f.app.collapsed.contains(&f.a2));
    assert!(!f.app.collapsed.contains(&f.b1));
    assert!(!f.app.collapsed.contains(&f.c));
    assert_eq!(f.app.collapsed.len(), 3);
}

#[test]
fn fold_all_skips_hidden_tasks() {
    let mut f = forest();
    f.app.show_unc = false;
    f.app.fold_all();
    assert!(f.app.collapsed.is_empty());
}

#[test]
fn unfold_all_clears_every_fold() {
    let mut f = forest();
    f.app.fold_all();
    f.app.unfold_all();
    assert!(f.app.collapsed.is_empty());
}

#[test]
fn fold_focus_global_opens_path_to_first_leaf() {
    let mut f = forest();
    f.app.fold_focus_global();
    assert!(!f.app.collapsed.contains(&f.a));
    assert!(!f.app.collapsed.contains(&f.a1));
    assert!(f.app.collapsed.contains(&f.b));
    assert_eq!(f.app.focused_col, Column::Todo);
    assert_eq!(f.app.selected_task_id(Column::Todo), Some(f.a1a));
    assert_eq!(f.app.tui_scroll_offset, 0);
}

#[test]
fn fold_focus_global_scrolls_two_rows_above_leaf() {
    let mut t0 = task("t0", Status::Todo);
    let mut t1 = task("t1", Status::Todo);
    let mut t2 = task("t2", Status::Todo);
    let mut t3 = task("t3", Status::Todo);
    let mut t4 = task("t4", Status::Todo);
    adopt(&mut t3, &mut t4);
    adopt(&mut t2, &mut t3);
    adopt(&mut t1, &mut t2);
    adopt(&mut t0, &mut t1);
    let leaf = t4.id;
    let mut app = App::new(vec![t0, t1, t2, t3, t4], no_projects());
    app.fold_focus_global();
    assert_eq!(app.selected_task_id(Column::Todo), Some(leaf));
    assert_eq!(app.tui_scroll_offset, 2);
    assert!(app.collapsed.is_empty());
}

#[test]
fn fold_focus_global_skips_done_children() {
    let mut a = task("A", Status::Todo);
    let mut done = task("done", Status::Done);
    let mut open = task("open", Status::Todo);
    adopt(&mut a, &mut done);
    adopt(&mut a, &mut open);
    let open_id = open.id;
    let mut app = App::new(vec![a, done, open], no_projects());
    app.fold_focus_global();
    assert_eq!(app.selected_task_id(Column::Todo), Some(open_id));
}

#[test]
fn fold_focus_global_without_open_roots_does_nothing() {
    let c = task("C", Status::Done);
    let mut app = App::new(vec![c], no_projects());
    app.fold_focus_global();
    assert!(app.collapsed.is_empty());
    assert_eq!(app.focused_col, Column::Todo);
}

#[test]
fn fold_focus_local_uses_root_under_cursor() {
    let mut f = forest();
    // Todo column in tree order: A, A1, A1a, A2, B, B1.
    f.app.cursor[App::col_index(Column::Todo)] = 5;
    f.app.fold_focus_local();
    assert!(f.app.collapsed.contains(&f.a));
    assert!(f.app.collapsed.contains(&f.a1));
    assert!(!f.app.collapsed.contains(&f.b));
    assert_eq!(f.app.selected_task_id(Column::Todo), Some(f.b1));
}

#[test]
fn cycle_leaf_next_folds_current_root_and_moves_on() {
    let mut f = forest();
    f.app.cursor[App::col_index(Column::Todo)] = 2;
    f.app.cycle_leaf_next();
    assert!(f.app.collapsed.contains(&f.a));
    assert!(!f.app.collapsed.contains(&f.b));
    assert_eq!(f.app.selected_task_id(Column::Todo), Some(f.b1));
}

#[test]
fn cycle_leaf_next_wraps_to_first_root() {
    let mut f = forest();
    f.app.cursor[App::col_index(Column::Todo)] = 5;
    f.app.cycle_leaf_next();
    assert!(f.app.collapsed.contains(&f.b));
    assert_eq!(f.app.selected_task_id(Column::Todo), Some(f.a1a));
}

#[test]
fn cycle_leaf_prev_wraps_to_last_root() {
    let mut f = forest();
    f.app.cursor[App::col_index(Column::Todo)] = 0;
    f.app.cycle_leaf_prev();
    assert!(f.app.collapsed.contains(&f.a));
    assert_eq!(f.app.selected_task_id(Column::Todo), Some(f.b1));
}

#[test]
fn cycle_leaf_prev_moves_back_one_root() {
    let mut f = forest();
    f.app.cursor[App::col_index(Column::Todo)] = 4;
    f.app.cycle_leaf_prev();
    assert!(f.app.collapsed.contains(&f.b));
    assert_eq!(f.app.selected_task_id(Column::Todo), Some(f.a1a));
}

#[test]
fn navigate_to_id_focuses_status_column() {
    let mut f = forest();
    f.app.navigate_to_id(f.c);
    assert_eq!(f.app.focused_col, Column::Done);
    assert_eq!(f.app.selected_task_id(Column::Done), Some(f.c));
    f.app.navigate_to_id(f.a2);
    assert_eq!(f.app.focused_col, Column::Todo);
    assert_eq!(f.app.selected_task_id(Column::Todo), Some(f.a2));
}

#[test]
fn navigate_to_id_ignores_unknown_task() {
    let mut f = forest();
    f.app.navigate_to_id(12345);
    assert_eq!(f.app.focused_col, Column::Todo);
    assert_eq!(f.app.cursor, [0, 0, 0]);
}

#[test]
fn z_then_g_focuses_first_root() {
    let mut f = forest();
    assert!(matches!(f.app.handle_key(key('z')), AppAction::Nothing));
    assert!(f.app.last_z_press.is_some());
    assert!(matches!(f.app.handle_key(key('g')), AppAction::Nothing));
    assert!(f.app.last_z_press.is_none());
    assert!(f.app.collapsed.contains(&f.b));
    assert_eq!(f.app.selected_task_id(Column::Todo), Some(f.a1a));
}

#[test]
fn z_then_other_tree_key_does_nothing() {
    let mut f = forest();
    f.app.handle_key(key('z'));
    f.app.handle_key(key('o'));
    assert_eq!(f.app.mode, Mode::Normal);
    assert!(f.app.insert.is_none());
    assert!(f.app.last_z_press.is_none());
}

#[test]
fn z_then_dot_cycles_to_next_root() {
    let mut f = forest();
    f.app.handle_key(key('z'));
    f.app.handle_key(key('.'));
    assert!(f.app.collapsed.contains(&f.a));
    assert_eq!(f.app.selected_task_id(Column::Todo), Some(f.b1));
}

#[test]
fn first_visible_leaf_is_the_first_unfinished_leaf_in_tree_order() {
    let f = forest();
    assert_eq!(f.app.first_visible_leaf_id(), Some(f.a1a));
    let c = task("C", Status::Done);
    let app = App::new(vec![c], no_projects());
    assert_eq!(app.first_visible_leaf_id(), None);
}
