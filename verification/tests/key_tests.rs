use zen::board::{App, Column, Mode, ViewMode};
use zen::input::{parse_count, AppAction, Command};
use zen::keys::{KeyCode, KeyPress};
use zen::task::{Status, Task};

fn no_projects() -> [Option<String>; 10] {
    Default::default()
}

fn key(code: KeyCode) -> KeyPress {
    KeyPress { code, ctrl: false, shift: false, alt: false }
}

fn ch(c: char) -> KeyPress {
    key(KeyCode::Char(c))
}

fn task(title: &str, status: Status) -> Task {
    Task::new(title.into(), "".into(), status)
}

#[test]
fn q_quits_and_changes_nothing() {
    let mut app = App::new(vec![task("a", Status::Todo)], no_projects());
    assert_eq!(app.command_for(ch('q')), Command::Quit);
    assert_eq!(app.handle_key(ch('q')), AppAction::Quit);
    assert_eq!(app.tasks.len(), 1);
}

#[test]
fn question_mark_opens_and_closes_help() {
    let mut app = App::new(vec![], no_projects());
    assert_eq!(app.handle_key(ch('?')), AppAction::Nothing);
    assert_eq!(app.mode, Mode::Help);
    app.handle_key(key(KeyCode::Esc));
    assert_eq!(app.mode, Mode::Normal);
}

#[test]
fn board_keys_move_focus_and_tasks() {
    let t = task("a", Status::Todo);
    let id = t.id;
    let mut app = App::new(vec![t], no_projects());
    app.view_mode = ViewMode::Board;
    app.handle_key(ch('l'));
    assert_eq!(app.focused_col, Column::Doing);
    app.handle_key(ch('h'));
    assert_eq!(app.focused_col, Column::Todo);
    assert_eq!(app.handle_key(ch('L')), AppAction::Save);
    assert_eq!(app.task_ref(id).unwrap().status, Status::Doing);
}

#[test]
fn tree_insert_types_and_commits_a_task() {
    let mut app = App::new(vec![], no_projects());
    app.handle_key(ch('o'));
    assert_eq!(app.mode, Mode::Insert);
    for c in "buy milk".chars() {
        app.handle_key(ch(c));
    }
    app.handle_key(key(KeyCode::Backspace));
    assert_eq!(app.insert.as_ref().unwrap().title, "buy mil");
    assert_eq!(app.handle_key(key(KeyCode::Enter)), AppAction::Save);
    assert_eq!(app.tasks.len(), 1);
    assert_eq!(app.tasks[0].title, "buy mil");
    assert_eq!(app.mode, Mode::Normal);
}

#[test]
fn escape_with_typed_title_asks_before_discarding() {
    let mut app = App::new(vec![], no_projects());
    app.handle_key(ch('o'));
    app.handle_key(ch('x'));
    app.handle_key(key(KeyCode::Esc));
    assert!(app.discard_confirm);
    assert_eq!(app.status_message.as_deref(), Some("Discard changes? (y/n)"));
    app.handle_key(ch('y'));
    assert!(app.insert.is_none());
    assert_eq!(app.mode, Mode::Normal);
    assert!(app.tasks.is_empty());
}

#[test]
fn editing_inserts_at_the_cursor() {
    let t = task("acd", Status::Todo);
    let id = t.id;
    let mut app = App::new(vec![t], no_projects());
    app.handle_key(ch('i'));
    assert_eq!(app.edit.as_ref().unwrap().cursor_pos, 0);
    app.handle_key(key(KeyCode::Right));
    app.handle_key(ch('b'));
    assert_eq!(app.edit.as_ref().unwrap().title, "abcd");
    app.handle_key(key(KeyCode::Backspace));
    app.handle_key(key(KeyCode::Backspace));
    assert_eq!(app.edit.as_ref().unwrap().title, "cd");
    app.handle_key(ch('z'));
    assert_eq!(app.handle_key(key(KeyCode::Enter)), AppAction::Save);
    assert_eq!(app.task_ref(id).unwrap().title, "zcd");
}

#[test]
fn undo_key_restores_a_deleted_task() {
    let t = task("a", Status::Todo);
    let id = t.id;
    let mut app = App::new(vec![t], no_projects());
    assert_eq!(app.handle_key(ch('d')), AppAction::Nothing);
    assert_eq!(app.handle_key(ch('d')), AppAction::Save);
    assert!(app.task_ref(id).is_none());
    assert_eq!(app.handle_key(ch('u')), AppAction::Save);
    assert!(app.task_ref(id).is_some());
}

#[test]
fn bulk_insert_adds_numbered_children() {
    let p = task("parent", Status::Todo);
    let pid = p.id;
    let mut app = App::new(vec![p], no_projects());
    app.handle_key(ch('A'));
    assert_eq!(app.mode, Mode::BulkInsert);
    app.handle_key(ch('x'));
    app.handle_key(ch('3'));
    app.handle_key(key(KeyCode::Enter));
    app.handle_key(ch('s'));
    assert_eq!(app.handle_key(key(KeyCode::Enter)), AppAction::Save);
    assert_eq!(app.task_ref(pid).unwrap().children.len(), 3);
}

#[test]
fn move_mode_assigns_the_slot_project() {
    let mut projects = no_projects();
    projects[1] = Some("home".to_string());
    let t = task("a", Status::Todo);
    let id = t.id;
    let mut app = App::new(vec![t], projects);
    app.handle_key(ch('m'));
    assert_eq!(app.mode, Mode::Move);
    assert_eq!(app.handle_key(ch('2')), AppAction::Save);
    assert_eq!(app.task_ref(id).unwrap().project, "home");
    assert_eq!(app.mode, Mode::Normal);
}

#[test]
fn snapshot_and_archive_keys_ask_the_caller() {
    let mut app = App::new(vec![], no_projects());
    assert_eq!(app.handle_key(ch('S')), AppAction::Snapshot);
    app.handle_key(KeyPress { code: KeyCode::Char('r'), ctrl: true, shift: false, alt: false });
    assert!(app.archive_done_confirm);
    assert_eq!(app.handle_key(key(KeyCode::Enter)), AppAction::Archive);
    app.handle_key(key(KeyCode::Esc));
    assert!(!app.archive_done_confirm);
}

#[test]
fn parse_count_reads_like_from_str() {
    assert_eq!(parse_count("42"), Some(42));
    assert_eq!(parse_count("+7"), Some(7));
    assert_eq!(parse_count(""), None);
    assert_eq!(parse_count("+"), None);
    assert_eq!(parse_count("4a"), None);
    assert_eq!(parse_count("-1"), None);
    assert_eq!(parse_count("99999999999999999999999"), None);
    assert_eq!(parse_count("18446744073709551615"), Some(usize::MAX));
}

#[test]
fn board_shows_the_insert_card_after_its_sibling() {
    let a = task("a", Status::Todo);
    let b = task("b", Status::Todo);
    let aid = a.id;
    let mut app = App::new(vec![a, b], no_projects());
    app.view_mode = ViewMode::Board;
    assert_eq!(app.board_insert_index(Column::Todo), None);
    app.begin_insert_after();
    let at = app.board_insert_index(Column::Todo);
    let visible = app.board_tasks_for(Column::Todo);
    let pos = visible.iter().position(|t| t.id == aid).unwrap();
    assert_eq!(at, Some(pos + 1));
    assert_eq!(app.board_insert_index(Column::Done), None);
}
