use zen::board::{App, Column, Mode};
use zen::keys::{KeyCode, KeyPress};
use zen::search::text_holds;
use zen::task::{Status, Task};

fn no_projects() -> [Option<String>; 10] {
    Default::default()
}

fn task(title: &str, status: Status) -> Task {
    Task::new(title.into(), "".into(), status)
}

fn adopt(parent: &mut Task, child: &mut Task) {
    child.parent_id = Some(parent.id);
    parent.children.push(child.id);
}

fn press(code: KeyCode) -> KeyPress {
    KeyPress { code, ctrl: false, shift: false, alt: false }
}

/// Fruit > (Apple, Grape);  Tools > Apparatus;  Done apricot.
struct Garden {
    app: App,
    fruit: u128,
    apple: u128,
    grape: u128,
    tools: u128,
    apparatus: u128,
    apricot: u128,
}

fn garden() -> Garden {
    let mut fruit = task("Fruit", Status::Todo);
    let mut apple = task("Apple pie", Status::Todo);
    let mut grape = task("grape", Status::Todo);
    let mut tools = task("Tools", Status::Todo);
    let mut apparatus = task("APparatus", Status::Todo);
    let apricot = task("apricot", Status::Done);
    adopt(&mut fruit, &mut apple);
    adopt(&mut fruit, &mut grape);
    adopt(&mut tools, &mut apparatus);
    let ids = (fruit.id, apple.id, grape.id, tools.id, apparatus.id, apricot.id);
    let app = App::new(vec![fruit, apple, grape, tools, apparatus, apricot], no_projects());
    Garden {
        app,
        fruit: ids.0,
        apple: ids.1,
        grape: ids.2,
        tools: ids.3,
        apparatus: ids.4,
        apricot: ids.5,
    }
}

fn type_query(app: &mut App, q: &str) {
    for c in q.chars() {
        app.search_push(c);
    }
}

#[test]
fn text_holds_finds_substrings() {
    assert!(text_holds("hello", "ll"));
    assert!(text_holds("hello", "hello"));
    assert!(text_holds("hello", ""));
    assert!(!text_holds("he", "hello"));
    assert!(!text_holds("hello", "lo!"));
    assert!(text_holds("grüße", "üß"));
}

#[test]
fn begin_search_enters_search_mode() {
    let mut g = garden();
    g.app.collapsed.insert(g.fruit);
    g.app.begin_search();
    assert_eq!(g.app.mode, Mode::Search);
    let s = g.app.search.as_ref().unwrap();
    assert!(s.query.is_empty());
    assert!(s.matches.is_empty());
    assert_eq!(s.match_idx, 0);
    assert!(s.original_collapsed.contains(&g.fruit));
    assert_eq!(s.original_collapsed.len(), 1);
}

#[test]
fn typing_finds_matches_in_tree_order_ignoring_case() {
    let mut g = garden();
    g.app.begin_search();
    type_query(&mut g.app, "ap");
    let s = g.app.search.as_ref().unwrap();
    assert_eq!(s.query, "ap");
    assert_eq!(s.matches, vec![g.apple, g.grape, g.apparatus, g.apricot]);
    assert_eq!(s.match_idx, 0);
    assert_eq!(g.app.selected_task_id(Column::Todo), Some(g.apple));
}

#[test]
fn typing_upper_case_query_matches_lower_case_titles() {
    let mut g = garden();
    g.app.begin_search();
    type_query(&mut g.app, "GRAPE");
    let s = g.app.search.as_ref().unwrap();
    assert_eq!(s.matches, vec![g.grape]);
    assert_eq!(g.app.selected_task_id(Column::Todo), Some(g.grape));
}

#[test]
fn jump_opens_only_the_ancestors_of_the_match() {
    let mut g = garden();
    g.app.collapsed.insert(g.fruit);
    g.app.collapsed.insert(g.tools);
    g.app.begin_search();
    type_query(&mut g.app, "apparatus");
    assert!(g.app.collapsed.contains(&g.fruit));
    assert!(!g.app.collapsed.contains(&g.tools));
    assert_eq!(g.app.selected_task_id(Column::Todo), Some(g.apparatus));
}

#[test]
fn search_next_and_prev_wrap_around() {
    let mut g = garden();
    g.app.begin_search();
    type_query(&mut g.app, "ap");
    g.app.commit_search();
    assert_eq!(g.app.mode, Mode::Normal);
    g.app.search_next();
    assert_eq!(g.app.search.as_ref().unwrap().match_idx, 1);
    assert_eq!(g.app.selected_task_id(Column::Todo), Some(g.grape));
    g.app.search_next();
    g.app.search_next();
    assert_eq!(g.app.search.as_ref().unwrap().match_idx, 3);
    assert_eq!(g.app.focused_col, Column::Done);
    assert_eq!(g.app.selected_task_id(Column::Done), Some(g.apricot));
    g.app.search_next();
    assert_eq!(g.app.search.as_ref().unwrap().match_idx, 0);
    g.app.search_prev();
    assert_eq!(g.app.search.as_ref().unwrap().match_idx, 3);
    g.app.search_prev();
    assert_eq!(g.app.search.as_ref().unwrap().match_idx, 2);
    assert_eq!(g.app.selected_task_id(Column::Todo), Some(g.apparatus));
}

#[test]
fn search_next_without_matches_does_nothing() {
    let mut g = garden();
    g.app.begin_search();
    type_query(&mut g.app, "zzz");
    assert!(g.app.search.as_ref().unwrap().matches.is_empty());
    g.app.search_next();
    g.app.search_prev();
    assert_eq!(g.app.search.as_ref().unwrap().match_idx, 0);
}

#[test]
fn erasing_the_query_recomputes_matches() {
    let mut g = garden();
    g.app.begin_search();
    type_query(&mut g.app, "apr");
    assert_eq!(g.app.search.as_ref().unwrap().matches, vec![g.apricot]);
    g.app.search_pop();
    assert_eq!(g.app.search.as_ref().unwrap().query, "ap");
    assert_eq!(g.app.search.as_ref().unwrap().matches.len(), 4);
    g.app.search_pop();
    g.app.search_pop();
    assert!(g.app.search.as_ref().unwrap().query.is_empty());
    assert!(g.app.search.as_ref().unwrap().matches.is_empty());
    g.app.search_pop();
    assert!(g.app.search.as_ref().unwrap().query.is_empty());
}

#[test]
fn match_index_is_kept_within_fewer_matches() {
    let mut g = garden();
    g.app.begin_search();
    type_query(&mut g.app, "a");
    g.app.search_prev();
    let last = g.app.search.as_ref().unwrap().matches.len() - 1;
    assert_eq!(g.app.search.as_ref().unwrap().match_idx, last);
    type_query(&mut g.app, "pple");
    assert_eq!(g.app.search.as_ref().unwrap().matches, vec![g.apple]);
    assert_eq!(g.app.search.as_ref().unwrap().match_idx, 0);
}

#[test]
fn cancel_search_restores_the_folds() {
    let mut g = garden();
    g.app.collapsed.insert(g.tools);
    g.app.begin_search();
    type_query(&mut g.app, "apparatus");
    assert!(!g.app.collapsed.contains(&g.tools));
    g.app.cancel_search();
    assert!(g.app.search.is_none());
    assert_eq!(g.app.mode, Mode::Normal);
    assert!(g.app.collapsed.contains(&g.tools));
    assert_eq!(g.app.collapsed.len(), 1);
}

#[test]
fn search_skips_hidden_tasks() {
    let mut g = garden();
    g.app.show_unc = false;
    g.app.begin_search();
    type_query(&mut g.app, "ap");
    assert!(g.app.search.as_ref().unwrap().matches.is_empty());
}

#[test]
fn search_keys_drive_the_search() {
    let mut g = garden();
    g.app.handle_key(press(KeyCode::Char('/')));
    assert_eq!(g.app.mode, Mode::Search);
    g.app.handle_key(press(KeyCode::Char('a')));
    g.app.handle_key(press(KeyCode::Char('p')));
    g.app.handle_key(press(KeyCode::Char('x')));
    g.app.handle_key(press(KeyCode::Backspace));
    g.app.handle_key(press(KeyCode::Enter));
    assert_eq!(g.app.mode, Mode::Normal);
    assert_eq!(g.app.search.as_ref().unwrap().matches.len(), 4);
    g.app.handle_key(press(KeyCode::Char('n')));
    assert_eq!(g.app.selected_task_id(Column::Todo), Some(g.grape));
    g.app.handle_key(press(KeyCode::Char('N')));
    assert_eq!(g.app.selected_task_id(Column::Todo), Some(g.apple));
    g.app.handle_key(press(KeyCode::Esc));
    assert!(g.app.search.is_none());
    assert_eq!(g.app.mode, Mode::Normal);
}

#[test]
fn esc_while_typing_cancels_the_search() {
    let mut g = garden();
    g.app.handle_key(press(KeyCode::Char('/')));
    g.app.handle_key(press(KeyCode::Char('t')));
    g.app.handle_key(press(KeyCode::Esc));
    assert!(g.app.search.is_none());
    assert_eq!(g.app.mode, Mode::Normal);
    assert!(g.app.collapsed.is_empty());
    let _ = (g.fruit, g.tools);
}
