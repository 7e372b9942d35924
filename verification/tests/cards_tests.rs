use zen::cards::{generate_card_id, generate_topic_id, Card, Finder, SearchResult, SearchableCard, Topic};
use zen::finder_screen::{FinderAction, FinderApp};
use zen::keys::{KeyCode, KeyPress};

fn key(code: KeyCode) -> KeyPress {
    KeyPress { code, ctrl: false, shift: false, alt: false }
}

fn ctrl(c: char) -> KeyPress {
    KeyPress { code: KeyCode::Char(c), ctrl: true, shift: false, alt: false }
}

fn create_test_app() -> FinderApp {
    FinderApp {
        finder: Finder::from_cards(vec![]),
        query: String::new(),
        results: vec![
            SearchResult {
                card: SearchableCard::new("card-1".to_string(), "Question 1".to_string(), "Answer 1".to_string()),
                score: 100,
            },
            SearchResult {
                card: SearchableCard::new("card-2".to_string(), "Question 2".to_string(), "Answer 2".to_string()),
                score: 90,
            },
            SearchResult {
                card: SearchableCard::new("card-3".to_string(), "Question 3".to_string(), "Answer 3".to_string()),
                score: 80,
            },
        ],
        selected_index: 0,
    }
}

#[test]
fn test_generate_card_id() {
    let id = generate_card_id();
    assert_eq!(id.len(), 6);
    assert!(id.chars().all(|c| c.is_ascii_alphanumeric()));
}

#[test]
fn test_card_creation() {
    let card = Card::new("Question?".to_string(), "Answer!".to_string());
    assert_eq!(card.id.len(), 6);
    assert_eq!(card.question, "Question?");
    assert_eq!(card.answer, "Answer!");
    assert_eq!(card.created_at, card.modified_at);
}

#[test]
fn test_unique_ids() {
    let ids: std::collections::HashSet<_> = (0..100).map(|_| generate_card_id()).collect();
    assert_eq!(ids.len(), 100);
}

#[test]
fn test_generate_topic_id() {
    let id = generate_topic_id();
    assert_eq!(id.len(), 6);
    assert!(id.chars().all(|c| c.is_alphanumeric()));
}

#[test]
fn test_topic_creation() {
    let keywords = vec!["AI".to_string(), "Machine Learning".to_string()];
    let topic = Topic::new(keywords.clone());
    assert_eq!(topic.keywords, keywords);
    assert_eq!(topic.id.len(), 6);
    assert!(topic.created_at <= chrono::Utc::now().timestamp_millis());
    assert_eq!(topic.created_at, topic.modified_at);
}

#[test]
fn test_generate_topic_id_uniqueness() {
    let id1 = generate_topic_id();
    let id2 = generate_topic_id();
    assert_ne!(id1, id2);
}

#[test]
fn test_searchable_card_new() {
    let card = SearchableCard::new(
        "test-id".to_string(),
        "What is Rust?".to_string(),
        "A systems programming language".to_string(),
    );
    assert_eq!(card.id, "test-id");
    assert_eq!(card.question, "What is Rust?");
    assert_eq!(card.answer, "A systems programming language");
    assert_eq!(card.search_text, "What is Rust?\n\n---\n\nA systems programming language");
}

#[test]
fn test_select_navigation() {
    let mut app = create_test_app();
    app.select_next();
    assert_eq!(app.selected_index, 1);
    app.select_next();
    assert_eq!(app.selected_index, 2);
    app.select_next();
    assert_eq!(app.selected_index, 0);
    app.select_prev();
    assert_eq!(app.selected_index, 2);
    app.select_prev();
    assert_eq!(app.selected_index, 1);
    app.select_prev();
    assert_eq!(app.selected_index, 0);
}

#[test]
fn test_handle_key_event_exit() {
    let mut app = create_test_app();
    let result = app.handle_key_event(key(KeyCode::Esc));
    assert!(matches!(result, FinderAction::Exit));
    let result = app.handle_key_event(ctrl('c'));
    assert!(matches!(result, FinderAction::Exit));
}

#[test]
fn test_ctrl_navigation() {
    let mut app = create_test_app();
    let initial_index = app.selected_index;
    app.handle_key_event(ctrl('n'));
    assert_eq!(app.selected_index, initial_index + 1);
    app.handle_key_event(ctrl('p'));
    assert_eq!(app.selected_index, initial_index);
    app.handle_key_event(key(KeyCode::Tab));
    assert_eq!(app.selected_index, initial_index + 1);
    app.handle_key_event(KeyPress { code: KeyCode::BackTab, ctrl: false, shift: true, alt: false });
    assert_eq!(app.selected_index, initial_index);
}

#[test]
fn test_handle_key_event_navigation_keys() {
    let mut app = create_test_app();
    let initial_index = app.selected_index;
    let result = app.handle_key_event(key(KeyCode::Down));
    assert!(matches!(result, FinderAction::Continue));
    assert_eq!(app.selected_index, initial_index + 1);
    app.selected_index = initial_index;
    let result = app.handle_key_event(key(KeyCode::Up));
    assert!(matches!(result, FinderAction::Continue));
    assert_eq!(app.selected_index, app.results.len() - 1);
}

#[test]
fn test_handle_key_event_enter() {
    let mut app = create_test_app();
    let result = app.handle_key_event(key(KeyCode::Enter));
    assert!(matches!(result, FinderAction::Edit(_)));
}

#[test]
fn test_empty_results() {
    let finder = Finder::from_cards(vec![]);
    let mut app = FinderApp { finder, query: String::new(), results: vec![], selected_index: 0 };
    app.select_next();
    app.select_prev();
    let result = app.handle_key_event(key(KeyCode::Enter));
    assert!(matches!(result, FinderAction::Continue));
}

fn sample_finder() -> Finder {
    Finder::from_cards(vec![
        SearchableCard::new("a1".to_string(), "What is Rust?".to_string(), "A language".to_string()),
        SearchableCard::new("b2".to_string(), "Capital of France".to_string(), "Paris".to_string()),
        SearchableCard::new("c3".to_string(), "Rusty nails".to_string(), "Old iron".to_string()),
    ])
}

#[test]
fn search_with_blank_query_lists_every_card_with_score_zero() {
    let f = sample_finder();
    let r = f.search("   ");
    assert_eq!(r.len(), 3);
    assert!(r.iter().all(|x| x.score == 0));
    assert_eq!(r[0].card.id, "a1");
    assert_eq!(r[2].card.id, "c3");
}

#[test]
fn search_keeps_only_matching_cards_best_first() {
    let f = sample_finder();
    let r = f.search("rust");
    assert!(!r.is_empty());
    assert!(r.iter().all(|x| x.card.id != "b2"));
    for w in r.windows(2) {
        assert!(w[0].score >= w[1].score);
    }
}

#[test]
fn search_finds_nothing_for_unmatched_query() {
    let f = sample_finder();
    assert!(f.search("zzzzqqq").is_empty());
}

#[test]
fn finder_get_card_by_id() {
    let f = sample_finder();
    assert_eq!(f.get_card("b2").unwrap().answer, "Paris");
    assert!(f.get_card("zz").is_none());
}

#[test]
fn typing_in_the_finder_searches_again() {
    let mut app = FinderApp::new(sample_finder(), "");
    assert_eq!(app.results.len(), 3);
    app.handle_key_event(key(KeyCode::Char('p')));
    app.handle_key_event(key(KeyCode::Char('a')));
    assert_eq!(app.query, "pa");
    assert!(app.results.iter().any(|x| x.card.id == "b2"));
    app.handle_key_event(key(KeyCode::Backspace));
    assert_eq!(app.query, "p");
    assert_eq!(app.selected_index, 0);
}
