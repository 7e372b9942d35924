use zen::board::{App, Column, Mode, ViewMode};
use zen::task::{Status, Task};

fn no_projects() -> [Option<String>; 10] {
    Default::default()
}

fn with_projects(names: &[&str]) -> [Option<String>; 10] {
    let mut p: [Option<String>; 10] = Default::default();
    for (i, name) in names.iter().enumerate().take(10) {
        p[i] = Some((*name).to_string());
    }
    p
}

fn task(title: &str, project: &str, status: Status) -> Task {
    Task::new(title.into(), project.into(), status)
}

fn empty_app() -> App {
    App::new(vec![], no_projects())
}

#[test]
fn column_next_clamps_at_done() {
    assert_eq!(Column::Todo.next(), Column::Doing);
    assert_eq!(Column::Doing.next(), Column::Done);
    assert_eq!(Column::Done.next(), Column::Done);
}

#[test]
fn column_prev_clamps_at_todo() {
    assert_eq!(Column::Done.prev(), Column::Doing);
    assert_eq!(Column::Doing.prev(), Column::Todo);
    assert_eq!(Column::Todo.prev(), Column::Todo);
}

#[test]
fn column_status_maps_correctly() {
    assert_eq!(Column::Todo.status(), Status::Todo);
    assert_eq!(Column::Doing.status(), Status::Doing);
    assert_eq!(Column::Done.status(), Status::Done);
}

#[test]
fn is_unc_empty_project() {
    let app = App::new(vec![], with_projects(&["work"]));
    let t = task("x", "", Status::Todo);
    assert!(app.is_unc(&t));
}

#[test]
fn is_unc_no_slot_match() {
    let app = App::new(vec![], with_projects(&["work"]));
    let t = task("x", "personal", Status::Todo);
    assert!(app.is_unc(&t));
}

#[test]
fn is_unc_false_when_slot_matches() {
    let app = App::new(vec![], with_projects(&["work"]));
    let t = task("x", "work", Status::Todo);
    assert!(!app.is_unc(&t));
}

#[test]
fn task_visible_unc_respects_show_unc() {
    let mut app = App::new(vec![], no_projects());
    let t = task("x", "", Status::Todo);
    app.show_unc = true;
    assert!(app.task_visible(&t));
    app.show_unc = false;
    assert!(!app.task_visible(&t));
}

#[test]
fn task_visible_slot_respects_active_slots() {
    let mut app = App::new(vec![], with_projects(&["work"]));
    let t = task("x", "work", Status::Todo);
    app.active_slots[0] = true;
    assert!(app.task_visible(&t));
    app.active_slots[0] = false;
    assert!(!app.task_visible(&t));
}

#[test]
fn is_leaf_task_done_task_is_not_leaf() {
    let app = empty_app();
    let t = task("x", "", Status::Done);
    assert!(!app.is_leaf_task(&t));
}

#[test]
fn is_leaf_task_todo_with_no_children_is_leaf() {
    let app = empty_app();
    let t = task("x", "", Status::Todo);
    assert!(app.is_leaf_task(&t));
}

#[test]
fn is_leaf_task_false_when_has_active_child() {
    let mut parent = task("parent", "", Status::Todo);
    let child = task("child", "", Status::Todo);
    parent.children.push(child.id);
    let app = App::new(vec![parent.clone(), child], no_projects());
    assert!(!app.is_leaf_task(&parent));
}

#[test]
fn visible_tasks_for_returns_matching_visible_tasks() {
    let t1 = task("a", "", Status::Todo);
    let t2 = task("b", "", Status::Doing);
    let app = App::new(vec![t1.clone(), t2.clone()], no_projects());
    let todo = app.visible_tasks_for(Column::Todo);
    assert_eq!(todo.len(), 1);
    assert_eq!(todo[0].id, t1.id);
}

#[test]
fn visible_tasks_for_respects_show_unc() {
    let t = task("a", "", Status::Todo);
    let mut app = App::new(vec![t], no_projects());
    app.show_unc = false;
    assert!(app.visible_tasks_for(Column::Todo).is_empty());
}

#[test]
fn visible_tasks_for_orders_children_after_parent() {
    let mut parent = task("parent", "", Status::Todo);
    let child = task("child", "", Status::Todo);
    parent.children.push(child.id);
    let child_id = child.id;
    let parent_id = parent.id;
    let mut child2 = child.clone();
    child2.parent_id = Some(parent_id);
    let app = App::new(vec![parent, child2], no_projects());
    let visible = app.visible_tasks_for(Column::Todo);
    assert_eq!(visible.len(), 2);
    assert_eq!(visible[0].id, parent_id);
    assert_eq!(visible[1].id, child_id);
}

#[test]
fn move_cursor_up_clamps_at_zero() {
    let mut app = App::new(vec![task("x", "", Status::Todo)], no_projects());
    app.cursor[0] = 0;
    app.move_cursor_up();
    assert_eq!(app.cursor[0], 0);
}

#[test]
fn move_cursor_down_clamps_at_last() {
    let t1 = task("a", "", Status::Todo);
    let t2 = task("b", "", Status::Todo);
    let mut app = App::new(vec![t1, t2], no_projects());
    app.cursor[0] = 1;
    app.move_cursor_down();
    assert_eq!(app.cursor[0], 1);
}

#[test]
fn focus_next_prev_col() {
    let mut app = empty_app();
    assert_eq!(app.focused_col, Column::Todo);
    app.focus_next_col();
    assert_eq!(app.focused_col, Column::Doing);
    app.focus_next_col();
    assert_eq!(app.focused_col, Column::Done);
    app.focus_next_col();
    assert_eq!(app.focused_col, Column::Done);
    app.focus_prev_col();
    assert_eq!(app.focused_col, Column::Doing);
}

#[test]
fn move_selected_right_changes_status() {
    let t = task("x", "", Status::Todo);
    let id = t.id;
    let mut app = App::new(vec![t], no_projects());
    app.focused_col = Column::Todo;
    app.move_selected_right();
    let moved = app.task_ref(id).unwrap();
    assert_eq!(moved.status, Status::Doing);
    assert_eq!(app.focused_col, Column::Doing);
}

#[test]
fn move_selected_left_changes_status() {
    let t = task("x", "", Status::Doing);
    let id = t.id;
    let mut app = App::new(vec![t], no_projects());
    app.focused_col = Column::Doing;
    app.move_selected_left();
    let moved = app.task_ref(id).unwrap();
    assert_eq!(moved.status, Status::Todo);
}

#[test]
fn move_selected_right_at_done_is_noop() {
    let t = task("x", "", Status::Done);
    let id = t.id;
    let mut app = App::new(vec![t], no_projects());
    app.focused_col = Column::Done;
    app.move_selected_right();
    assert_eq!(app.task_ref(id).unwrap().status, Status::Done);
}

#[test]
fn parent_demotes_when_child_returns_from_done_with_done_sibling() {
    let mut parent = task("parent", "", Status::Todo);
    let mut c1 = task("c1", "", Status::Todo);
    let mut c2 = task("c2", "", Status::Done);
    let pid = parent.id;
    let c1_id = c1.id;
    let c2_id = c2.id;
    c1.parent_id = Some(pid);
    c2.parent_id = Some(pid);
    parent.children = vec![c1_id, c2_id];
    let mut app = App::new(vec![parent, c1, c2], no_projects());
    app.view_mode = ViewMode::Board;

    app.focused_col = Column::Todo;
    app.move_selected_right();
    app.focused_col = Column::Doing;
    app.move_selected_right();
    assert_eq!(app.task_ref(pid).unwrap().status, Status::Done);

    app.focused_col = Column::Done;
    app.move_selected_left();
    assert_eq!(app.task_ref(c1_id).unwrap().status, Status::Doing);
    assert_eq!(app.task_ref(c2_id).unwrap().status, Status::Done);
    assert_eq!(
        app.task_ref(pid).unwrap().status,
        Status::Doing,
        "parent should be Doing when c1 is Doing even though c2 is Done"
    );
}

#[test]
fn app_make_child_increments_depth_by_one_when_above_is_deeper() {
    let root1 = task("root1", "", Status::Todo);
    let mut child_of_root1 = task("child_of_root1", "", Status::Todo);
    let root2 = task("root2", "", Status::Todo);
    let root1_id = root1.id;
    let child_id = child_of_root1.id;
    let root2_id = root2.id;
    child_of_root1.parent_id = Some(root1_id);
    let mut app = App::new(vec![root1, child_of_root1, root2], no_projects());
    app.task_mut(root1_id).unwrap().children.push(child_id);
    app.focused_col = Column::Todo;
    app.cursor[0] = 2;
    app.make_child();
    assert_eq!(app.task_ref(root2_id).unwrap().parent_id, Some(root1_id));
    assert!(app.task_ref(root1_id).unwrap().children.contains(&root2_id));
    assert!(!app.task_ref(child_id).unwrap().children.contains(&root2_id));
}

#[test]
fn app_make_child_links_parent_and_child() {
    let parent = task("parent", "", Status::Todo);
    let child = task("child", "", Status::Todo);
    let parent_id = parent.id;
    let child_id = child.id;
    let mut app = App::new(vec![parent, child], no_projects());
    app.focused_col = Column::Todo;
    app.cursor[0] = 1;
    app.make_child();
    assert_eq!(app.task_ref(child_id).unwrap().parent_id, Some(parent_id));
    assert!(app.task_ref(parent_id).unwrap().children.contains(&child_id));
}

#[test]
fn app_make_root_promotes_depth1_to_root() {
    let mut parent = task("parent", "", Status::Todo);
    let mut child = task("child", "", Status::Todo);
    let parent_id = parent.id;
    let child_id = child.id;
    child.parent_id = Some(parent_id);
    parent.children.push(child_id);
    let mut app = App::new(vec![parent, child], no_projects());
    app.focused_col = Column::Todo;
    app.cursor[0] = 1;
    app.make_root();
    assert!(app.task_ref(child_id).unwrap().parent_id.is_none());
    assert!(!app.task_ref(parent_id).unwrap().children.contains(&child_id));
}

#[test]
fn app_make_root_decrements_depth_by_one_not_to_root() {
    let mut grandparent = task("grandparent", "", Status::Todo);
    let mut parent = task("parent", "", Status::Todo);
    let mut child = task("child", "", Status::Todo);
    let gp_id = grandparent.id;
    let parent_id = parent.id;
    let child_id = child.id;
    parent.parent_id = Some(gp_id);
    grandparent.children.push(parent_id);
    child.parent_id = Some(parent_id);
    parent.children.push(child_id);
    let mut app = App::new(vec![grandparent, parent, child], no_projects());
    app.focused_col = Column::Todo;
    app.cursor[0] = 2;
    app.make_root();
    assert_eq!(app.task_ref(child_id).unwrap().parent_id, Some(gp_id));
    assert!(app.task_ref(gp_id).unwrap().children.contains(&child_id));
    assert!(!app.task_ref(parent_id).unwrap().children.contains(&child_id));
}

#[test]
fn make_child_unc_inherits_parent_project() {
    let parent = task("parent", "work", Status::Todo);
    let child = task("child", "", Status::Todo);
    let child_id = child.id;
    let mut app = App::new(vec![parent, child], no_projects());
    app.focused_col = Column::Todo;
    app.cursor[0] = 1;
    app.make_child();
    assert_eq!(app.task_ref(child_id).unwrap().project, "work");
}

#[test]
fn make_child_unc_parent_inherits_child_project() {
    let parent = task("parent", "", Status::Todo);
    let child = task("child", "work", Status::Todo);
    let parent_id = parent.id;
    let child_id = child.id;
    let mut app = App::new(vec![parent, child], no_projects());
    app.focused_col = Column::Todo;
    app.cursor[0] = 1;
    app.make_child();
    assert_eq!(app.task_ref(parent_id).unwrap().project, "work");
    assert_eq!(app.task_ref(child_id).unwrap().project, "work");
}

#[test]
fn make_child_parent_project_takes_precedence_over_child() {
    let parent = task("parent", "work", Status::Todo);
    let child = task("child", "personal", Status::Todo);
    let parent_id = parent.id;
    let child_id = child.id;
    let mut app = App::new(vec![parent, child], no_projects());
    app.focused_col = Column::Todo;
    app.cursor[0] = 1;
    app.make_child();
    assert_eq!(app.task_ref(parent_id).unwrap().project, "work");
    assert_eq!(app.task_ref(child_id).unwrap().project, "work");
}

#[test]
fn delete_task_removes_task_and_orphans_children() {
    let mut parent = task("parent", "", Status::Todo);
    let mut child = task("child", "", Status::Todo);
    let parent_id = parent.id;
    let child_id = child.id;
    child.parent_id = Some(parent_id);
    parent.children.push(child_id);
    let mut app = App::new(vec![parent, child], no_projects());
    app.delete_task(parent_id);
    assert!(app.task_ref(parent_id).is_none());
    assert!(app.task_ref(child_id).unwrap().parent_id.is_none());
}

#[test]
fn enable_all_resets_everything() {
    let mut app = App::new(vec![], with_projects(&["work"]));
    app.active_slots = [false; 10];
    app.show_unc = false;
    app.enable_all();
    assert!(app.active_slots.iter().all(|&s| s));
    assert!(app.show_unc);
}

#[test]
fn disable_all_hides_everything() {
    let mut app = empty_app();
    app.disable_all();
    assert!(app.active_slots.iter().all(|&s| !s));
    assert!(!app.show_unc);
}

#[test]
fn default_project_empty_when_multiple_active() {
    let app = App::new(vec![], with_projects(&["work", "home"]));
    assert_eq!(app.default_project_for_insert(), "");
}

#[test]
fn default_project_uses_sole_active_slot() {
    let mut app = App::new(vec![], with_projects(&["work", "home"]));
    app.active_slots = [false; 10];
    app.active_slots[1] = true;
    assert_eq!(app.default_project_for_insert(), "home");
}

#[test]
fn app_commit_insert_adds_task() {
    let mut app = empty_app();
    app.begin_insert_after();
    app.insert.as_mut().unwrap().title = "new task".into();
    app.commit_insert();
    assert_eq!(app.tasks.len(), 1);
    assert_eq!(app.tasks[0].title, "new task");
    assert_eq!(app.mode, Mode::Normal);
}

#[test]
fn app_commit_insert_empty_title_aborts() {
    let mut app = empty_app();
    app.begin_insert_after();
    app.commit_insert();
    assert!(app.tasks.is_empty());
    assert_eq!(app.mode, Mode::Normal);
}

#[test]
fn app_commit_insert_propagates_todo_up_through_done_ancestors() {
    let mut parent = task("parent", "", Status::Done);
    let done_child = task("done_child", "", Status::Done);
    let parent_id = parent.id;
    let _done_child_id = done_child.id;
    let mut done_child2 = done_child.clone();
    done_child2.parent_id = Some(parent_id);
    parent.children.push(done_child2.id);
    let mut app = App::new(vec![parent, done_child2], no_projects());
    app.focused_col = Column::Done;
    app.cursor[App::col_index(Column::Done)] = 0;
    app.begin_insert_after();
    app.insert.as_mut().unwrap().title = "new subtask".into();
    app.insert.as_mut().unwrap().parent_id = Some(parent_id);
    app.commit_insert();
    assert_eq!(
        app.task_ref(parent_id).unwrap().status,
        Status::Todo,
        "parent should demote to Todo when a new Todo child is added to a Done family"
    );
}

#[test]
fn set_project_recursive_updates_tree() {
    let mut parent = task("parent", "old", Status::Todo);
    let mut child = task("child", "old", Status::Todo);
    let parent_id = parent.id;
    let child_id = child.id;
    child.parent_id = Some(parent_id);
    parent.children.push(child_id);
    let mut app = App::new(vec![parent, child], no_projects());
    app.set_project_recursive(parent_id, "new".into());
    assert_eq!(app.task_ref(parent_id).unwrap().project, "new");
    assert_eq!(app.task_ref(child_id).unwrap().project, "new");
}

#[test]
fn unc_doable_count_counts_leaf_unc_tasks() {
    let mut parent = task("parent", "", Status::Todo);
    let mut child = task("child", "", Status::Todo);
    let parent_id = parent.id;
    let child_id = child.id;
    child.parent_id = Some(parent_id);
    parent.children.push(child_id);
    let app = App::new(vec![parent, child], no_projects());
    assert_eq!(app.unc_doable_count(), 1);
}
