use zen::board::{App, Column, Mode, ViewMode};
use zen::input::AppAction;
use zen::insert::id_apart_from;
use zen::keys::{KeyCode, KeyPress};
use zen::outside::now_millis;
use zen::task::{Status, Task};

fn no_projects() -> [Option<String>; 10] {
    Default::default()
}

fn task(title: &str, status: Status) -> Task {
    Task::new(title.into(), "".into(), status)
}

fn adopt(parent: &mut Task, child: &mut Task) {
    child.parent_id = Some(parent.id);
    parent.children.push(child.id);
}

fn key(c: char) -> KeyPress {
    KeyPress { code: KeyCode::Char(c), ctrl: false, shift: false, alt: false }
}

fn ids(tasks: Vec<&Task>) -> Vec<u128> {
    tasks.iter().map(|t| t.id).collect()
}

#[test]
fn board_shows_parent_whose_children_are_all_done() {
    let mut parent = task("parent", Status::Doing);
    let mut child = task("child", Status::Done);
    adopt(&mut parent, &mut child);
    let (pid, cid) = (parent.id, child.id);
    let app = App::new(vec![parent, child], no_projects());
    assert_eq!(ids(app.board_tasks_for(Column::Doing)), vec![pid]);
    assert_eq!(ids(app.board_tasks_for(Column::Done)), vec![cid]);
}

#[test]
fn board_hides_parent_with_an_active_child() {
    let mut parent = task("parent", Status::Todo);
    let mut child = task("child", Status::Todo);
    adopt(&mut parent, &mut child);
    let cid = child.id;
    let app = App::new(vec![parent, child], no_projects());
    assert_eq!(ids(app.board_tasks_for(Column::Todo)), vec![cid]);
}

#[test]
fn id_apart_from_steps_past_the_avoided_identifier() {
    assert_eq!(id_apart_from(5, Some(5)), 6);
    assert_eq!(id_apart_from(u128::MAX, Some(u128::MAX)), 0);
    assert_eq!(id_apart_from(5, Some(6)), 5);
    assert_eq!(id_apart_from(5, None), 5);
}

#[test]
fn now_millis_reads_the_clock() {
    // 2020-09-13, well before any run of these tests.
    assert!(now_millis() > 1_600_000_000_000);
}

#[test]
fn shift_k_swaps_with_the_sibling_above() {
    let a = task("a", Status::Todo);
    let b = task("b", Status::Todo);
    let (ia, ib) = (a.id, b.id);
    let mut app = App::new(vec![a, b], no_projects());
    app.cursor[App::col_index(Column::Todo)] = 1;
    assert!(matches!(app.handle_key(key('K')), AppAction::Save));
    assert_eq!(app.tasks[0].id, ib);
    assert_eq!(app.tasks[1].id, ia);
    assert_eq!(app.selected_task_id(Column::Todo), Some(ib));
    assert_eq!(app.undo_stack.len(), 1);
}

#[test]
fn shift_j_swaps_with_the_sibling_below() {
    let a = task("a", Status::Todo);
    let b = task("b", Status::Todo);
    let (ia, ib) = (a.id, b.id);
    let mut app = App::new(vec![a, b], no_projects());
    assert!(matches!(app.handle_key(key('J')), AppAction::Save));
    assert_eq!(app.tasks[0].id, ib);
    assert_eq!(app.tasks[1].id, ia);
    assert_eq!(app.selected_task_id(Column::Todo), Some(ia));
}

#[test]
fn space_toggles_doing_in_the_tree() {
    let a = task("a", Status::Todo);
    let ia = a.id;
    let mut app = App::new(vec![a], no_projects());
    assert!(matches!(app.handle_key(key(' ')), AppAction::Save));
    assert_eq!(app.task_ref(ia).unwrap().status, Status::Doing);
}

#[test]
fn less_than_makes_a_child_a_root() {
    let mut p = task("p", Status::Todo);
    let mut c = task("c", Status::Todo);
    adopt(&mut p, &mut c);
    let ic = c.id;
    let mut app = App::new(vec![p, c], no_projects());
    app.cursor[App::col_index(Column::Todo)] = 1;
    assert!(matches!(app.handle_key(key('<')), AppAction::Save));
    assert_eq!(app.task_ref(ic).unwrap().parent_id, None);
}

#[test]
fn slot_keys_and_filters_act_through_handle_key() {
    let mut projects = no_projects();
    projects[0] = Some("work".to_string());
    let mut app = App::new(vec![], projects);
    app.handle_key(key('-'));
    assert!(app.active_slots.iter().all(|on| !on));
    assert!(!app.show_unc);
    app.handle_key(key('='));
    assert!(app.active_slots.iter().all(|on| *on));
    assert!(app.show_unc);
    app.handle_key(key('1'));
    assert!(app.active_slots[0]);
    assert!(!app.active_slots[1]);
    assert!(!app.show_unc);
    assert_eq!(app.view_mode, ViewMode::Tree);
    assert_eq!(app.mode, Mode::Normal);
}

#[test]
fn planning_round_trip_restores_the_board_filter() {
    let mut projects = no_projects();
    projects[0] = Some("work".to_string());
    projects[1] = Some("home".to_string());
    let t = Task::new("t".into(), "home".into(), Status::Todo);
    let mut app = App::new(vec![t], projects);
    app.view_mode = ViewMode::Board;
    app.active_slots = [true, false, true, true, true, true, true, true, true, true];
    let before = (app.active_slots, app.show_unc);
    app.enter_planning_for_selected();
    assert_eq!(app.view_mode, ViewMode::Tree);
    let tree_filter = (app.active_slots, app.show_unc);
    assert!(tree_filter.0[1] && !tree_filter.0[0]);
    app.exit_planning();
    assert_eq!((app.active_slots, app.show_unc), before);
    assert_eq!(app.view_mode, ViewMode::Board);
    assert_eq!((app.last_tree_slots, app.last_tree_show_unc), tree_filter);
}

#[test]
fn cycling_projects_there_and_back_restores_the_filter() {
    let mut projects = no_projects();
    projects[0] = Some("work".to_string());
    projects[3] = Some("home".to_string());
    let mut app = App::new(vec![], projects);
    app.select_project_slot(3);
    let before = (app.active_slots, app.show_unc);
    app.cycle_project(1);
    assert!(app.show_unc);
    assert!(app.active_slots.iter().all(|on| !on));
    app.cycle_project(-1);
    assert_eq!((app.active_slots, app.show_unc), before);
    app.cycle_project(2);
    assert!(app.active_slots[0]);
    app.cycle_project(-2);
    assert_eq!((app.active_slots, app.show_unc), before);
}

#[test]
fn press_d_fires_only_within_half_a_second() {
    let a = task("a", Status::Todo);
    let mut app = App::new(vec![a], no_projects());
    assert!(!app.press_d(None));
    assert!(app.last_d_press.is_some());
    assert_eq!(app.tasks.len(), 1);
    assert!(!app.press_d(Some(500)));
    assert_eq!(app.tasks.len(), 1);
    assert!(app.press_d(Some(499)));
    assert!(app.tasks.is_empty());
    assert!(app.last_d_press.is_none());
    assert_eq!(app.undo_stack.len(), 1);
}

#[test]
fn visual_shift_down_undoes_shift_up() {
    let mut p = task("p", Status::Todo);
    let mut x = task("x", Status::Todo);
    let mut y = task("y", Status::Todo);
    let mut z = task("z", Status::Todo);
    for c in [&mut x, &mut y, &mut z] {
        c.parent_id = Some(p.id);
        p.children.push(c.id);
    }
    let (pid, yid, zid) = (p.id, y.id, z.id);
    let mut app = App::new(vec![p, x, y, z], no_projects());
    let before = app.task_ref(pid).unwrap().children.clone();
    app.visual_shift_up(&[yid, zid]);
    assert_ne!(app.task_ref(pid).unwrap().children, before);
    app.visual_shift_down(&[yid, zid]);
    assert_eq!(app.task_ref(pid).unwrap().children, before);
}
