use zen::board::{App, Column, Mode};
use zen::task::{Status, Task};

fn no_projects() -> [Option<String>; 10] {
    Default::default()
}

fn task(title: &str, status: Status) -> Task {
    Task::new(title.into(), "".into(), status)
}

fn empty_app() -> App {
    App::new(vec![], no_projects())
}
// ── status toggles ────────────────────────────────────────────────────────

#[test]
fn tree_toggle_doing_sets_and_clears() {
    let t = task("x", Status::Todo);
    let id = t.id;
    let mut app = App::new(vec![t], no_projects());
    app.tree_toggle_doing();
    assert_eq!(app.task_ref(id).unwrap().status, Status::Doing);
    app.tree_toggle_doing();
    assert_eq!(app.task_ref(id).unwrap().status, Status::Todo);
}

#[test]
fn tree_toggle_done_sets_and_clears() {
    let t = task("x", Status::Todo);
    let id = t.id;
    let mut app = App::new(vec![t], no_projects());
    app.tree_toggle_done();
    assert_eq!(app.task_ref(id).unwrap().status, Status::Done);
    app.tree_toggle_done();
    assert_eq!(app.task_ref(id).unwrap().status, Status::Todo);
}

#[test]
fn done_child_auto_promotes_parent() {
    let mut parent = task("parent", Status::Todo);
    let mut child = task("child", Status::Todo);
    let pid = parent.id;
    let cid = child.id;
    child.parent_id = Some(pid);
    parent.children.push(cid);
    let mut app = App::new(vec![parent, child], no_projects());
    app.cursor[App::col_index(Column::Todo)] = 1;
    app.tree_toggle_done();
    assert_eq!(app.task_ref(cid).unwrap().status, Status::Done);
    assert_eq!(app.task_ref(pid).unwrap().status, Status::Done);
}


#[test]
fn mod_make_child_increments_depth_by_one_when_above_is_deeper() {
    let root1 = task("root1", Status::Todo);
    let mut child_of_root1 = task("child_of_root1", Status::Todo);
    let root2 = task("root2", Status::Todo);
    let root1_id = root1.id;
    let child_id = child_of_root1.id;
    let root2_id = root2.id;
    child_of_root1.parent_id = Some(root1_id);
    let mut app = App::new(vec![root1, child_of_root1, root2], no_projects());
    app.task_mut(root1_id).unwrap().children.push(child_id);
    app.focused_col = Column::Todo;
    app.cursor[0] = 2;
    app.make_child();
    assert_eq!(app.task_ref(root2_id).unwrap().parent_id, Some(root1_id));
    assert!(app.task_ref(root1_id).unwrap().children.contains(&root2_id));
    assert!(!app.task_ref(child_id).unwrap().children.contains(&root2_id));
}

#[test]
fn mod_make_child_links_parent_and_child() {
    let parent = task("parent", Status::Todo);
    let child = task("child", Status::Todo);
    let parent_id = parent.id;
    let child_id = child.id;
    let mut app = App::new(vec![parent, child], no_projects());
    app.focused_col = Column::Todo;
    app.cursor[0] = 1;
    app.make_child();
    assert_eq!(app.task_ref(child_id).unwrap().parent_id, Some(parent_id));
    assert!(app.task_ref(parent_id).unwrap().children.contains(&child_id));
}

#[test]
fn mod_make_root_promotes_depth1_to_root() {
    let mut parent = task("parent", Status::Todo);
    let mut child = task("child", Status::Todo);
    let parent_id = parent.id;
    let child_id = child.id;
    child.parent_id = Some(parent_id);
    parent.children.push(child_id);
    let mut app = App::new(vec![parent, child], no_projects());
    app.focused_col = Column::Todo;
    app.cursor[0] = 1;
    app.make_root();
    assert!(app.task_ref(child_id).unwrap().parent_id.is_none());
    assert!(!app.task_ref(parent_id).unwrap().children.contains(&child_id));
}

#[test]
fn mod_make_root_decrements_depth_by_one_not_to_root() {
    let mut grandparent = task("grandparent", Status::Todo);
    let mut parent = task("parent", Status::Todo);
    let mut child = task("child", Status::Todo);
    let gp_id = grandparent.id;
    let parent_id = parent.id;
    let child_id = child.id;
    parent.parent_id = Some(gp_id);
    grandparent.children.push(parent_id);
    child.parent_id = Some(parent_id);
    parent.children.push(child_id);
    let mut app = App::new(vec![grandparent, parent, child], no_projects());
    app.focused_col = Column::Todo;
    app.cursor[0] = 2;
    app.make_root();
    assert_eq!(app.task_ref(child_id).unwrap().parent_id, Some(gp_id));
    assert!(app.task_ref(gp_id).unwrap().children.contains(&child_id));
    assert!(!app.task_ref(parent_id).unwrap().children.contains(&child_id));
}

#[test]
fn make_root_carries_children_with_promoted_task() {
    // grandparent -> parent -> task -> [child_a, child_b]
    // Promoting `task` should move it under grandparent while keeping
    // child_a and child_b under task (not stranded under parent).
    let mut grandparent = task("grandparent", Status::Todo);
    let mut parent = task("parent", Status::Todo);
    let mut t = task("task", Status::Todo);
    let mut child_a = task("child_a", Status::Todo);
    let mut child_b = task("child_b", Status::Todo);
    let gp_id = grandparent.id;
    let parent_id = parent.id;
    let task_id = t.id;
    let child_a_id = child_a.id;
    let child_b_id = child_b.id;
    parent.parent_id = Some(gp_id);
    grandparent.children.push(parent_id);
    t.parent_id = Some(parent_id);
    parent.children.push(task_id);
    child_a.parent_id = Some(task_id);
    child_b.parent_id = Some(task_id);
    t.children.push(child_a_id);
    t.children.push(child_b_id);
    let mut app = App::new(vec![grandparent, parent, t, child_a, child_b], no_projects());
    app.focused_col = Column::Todo;
    app.cursor[0] = 2; // task is at DFS index 2
    app.make_root();
    // task promoted to grandparent level
    assert_eq!(app.task_ref(task_id).unwrap().parent_id, Some(gp_id));
    assert!(app.task_ref(gp_id).unwrap().children.contains(&task_id));
    assert!(!app.task_ref(parent_id).unwrap().children.contains(&task_id));
    // children stay under task, not stranded under parent
    assert!(app.task_ref(task_id).unwrap().children.contains(&child_a_id));
    assert!(app.task_ref(task_id).unwrap().children.contains(&child_b_id));
    assert_eq!(app.task_ref(child_a_id).unwrap().parent_id, Some(task_id));
    assert_eq!(app.task_ref(child_b_id).unwrap().parent_id, Some(task_id));
    assert!(!app.task_ref(parent_id).unwrap().children.contains(&child_a_id));
    assert!(!app.task_ref(parent_id).unwrap().children.contains(&child_b_id));
}


#[test]
fn mod_commit_insert_adds_task() {
    let mut app = empty_app();
    app.begin_insert_after();
    app.insert.as_mut().unwrap().title = "new task".into();
    app.commit_insert();
    assert_eq!(app.tasks.len(), 1);
    assert_eq!(app.tasks[0].title, "new task");
    assert_eq!(app.mode, Mode::Normal);
}

#[test]
fn mod_commit_insert_empty_title_aborts() {
    let mut app = empty_app();
    app.begin_insert_after();
    app.commit_insert();
    assert!(app.tasks.is_empty());
    assert_eq!(app.mode, Mode::Normal);
}

#[test]
fn mod_commit_insert_propagates_todo_up_through_done_ancestors() {
    let mut parent = task("parent", Status::Done);
    let done_child = task("done_child", Status::Done);
    let parent_id = parent.id;
    let mut done_child2 = done_child.clone();
    done_child2.parent_id = Some(parent_id);
    parent.children.push(done_child2.id);
    let mut app = App::new(vec![parent, done_child2], no_projects());
    app.focused_col = Column::Done;
    app.cursor[App::col_index(Column::Done)] = 0;
    app.begin_insert_after();
    app.insert.as_mut().unwrap().title = "new subtask".into();
    app.insert.as_mut().unwrap().parent_id = Some(parent_id);
    app.commit_insert();
    assert_eq!(app.task_ref(parent_id).unwrap().status, Status::Todo,
        "parent should demote to Todo when a new Todo child is added to a Done family");
}

#[test]
fn task_visible_active_task_shown() {
    let app = empty_app();
    let t = task("x", Status::Todo);
    assert!(app.task_visible(&t));
}
