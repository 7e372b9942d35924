use zen::config::Config;
use zen::keys::{KeyCode, KeyPress};
use zen::review::{
    review_elapsed_days, summarize, valid_rating, ReviewAction, ReviewInput, ReviewSession, ReviewState,
    ReviewSummary,
};

fn key(code: KeyCode) -> KeyPress {
    KeyPress { code, ctrl: false, shift: false, alt: false }
}

#[test]
fn test_default_config() {
    let config = Config::default();
    assert!(config.llm.is_none());
}

#[test]
fn default_config_has_no_web_search() {
    let config = Config::default();
    assert!(config.web_search.is_none());
}

#[test]
fn test_review_summary_default() {
    let summary = ReviewSummary::default();
    assert_eq!(summary.total_reviewed, 0);
    assert_eq!(summary.again_count, 0);
    assert_eq!(summary.hard_count, 0);
    assert_eq!(summary.good_count, 0);
    assert_eq!(summary.easy_count, 0);
}

#[test]
fn test_review_state_transitions() {
    assert_eq!(ReviewState::ShowingQuestion, ReviewState::ShowingQuestion);
    assert_ne!(ReviewState::ShowingQuestion, ReviewState::ShowingAnswer);
}

#[test]
fn summarize_counts_each_rating() {
    let s = summarize(&vec![1, 3, 3, 4, 2, 3]);
    assert_eq!(s.total_reviewed, 6);
    assert_eq!(s.again_count, 1);
    assert_eq!(s.hard_count, 1);
    assert_eq!(s.good_count, 3);
    assert_eq!(s.easy_count, 1);
    assert_eq!(s.again_count + s.hard_count + s.good_count + s.easy_count, s.total_reviewed);
}

#[test]
fn valid_rating_accepts_one_to_four() {
    assert!(!valid_rating(0));
    assert!(valid_rating(1));
    assert!(valid_rating(4));
    assert!(!valid_rating(5));
}

#[test]
fn elapsed_days_truncates_whole_days() {
    let day: i64 = 86_400_000;
    assert_eq!(review_elapsed_days(3 * day + 5, Some(0)), 3);
    assert_eq!(review_elapsed_days(day - 1, Some(0)), 0);
    assert_eq!(review_elapsed_days(day, None), 0);
}

#[test]
fn review_screen_reveals_and_rates() {
    let mut r = ReviewInput { state: ReviewState::ShowingQuestion, user_input: vec![], current_line: String::new() };
    assert_eq!(r.handle_key_event(key(KeyCode::Enter)), ReviewAction::StartInput);
    assert_eq!(r.state, ReviewState::ShowingQuestion);
    r.state = ReviewState::InputtingAnswer;
    r.handle_key_event(key(KeyCode::Char('h')));
    r.handle_key_event(key(KeyCode::Char('i')));
    assert_eq!(r.current_line, "hi");
    r.handle_key_event(key(KeyCode::Backspace));
    assert_eq!(r.current_line, "h");
    assert_eq!(r.handle_key_event(key(KeyCode::Enter)), ReviewAction::Continue);
    assert_eq!(r.user_input, vec!["h".to_string()]);
    assert_eq!(r.handle_key_event(key(KeyCode::Enter)), ReviewAction::RevealAnswer);
    r.state = ReviewState::ShowingAnswer;
    assert_eq!(r.handle_key_event(key(KeyCode::Char('3'))), ReviewAction::SubmitRating(3));
    let esc = r.handle_key_event(key(KeyCode::Esc));
    assert_eq!(esc, ReviewAction::Exit);
}

#[test]
fn session_needs_a_due_card() {
    match ReviewSession::new(Vec::new()) {
        Err(m) => assert_eq!(m, "No cards due for review"),
        Ok(_) => panic!("a session without cards"),
    }
}

#[test]
fn session_counts_only_accepted_ratings() {
    let mut s = ReviewSession::new(vec!["a".to_string(), "b".to_string(), "c".to_string()]).unwrap();
    assert_eq!(s.progress(), (1, 3));
    assert_eq!(s.current_card(), Some(&"a".to_string()));
    assert_eq!(s.submit_rating(0), Err("Rating must be between 1 and 4".to_string()));
    assert_eq!(s.submit_rating(5), Err("Rating must be between 1 and 4".to_string()));
    assert_eq!(s.progress(), (1, 3));
    assert_eq!(s.submit_rating(3), Ok(()));
    assert_eq!(s.current_card(), Some(&"b".to_string()));
    assert_eq!(s.submit_rating(1), Ok(()));
    assert!(!s.is_complete());
    assert_eq!(s.submit_rating(4), Ok(()));
    assert!(s.is_complete());
    assert_eq!(s.current_card(), None);
    assert_eq!(s.submit_rating(2), Err("No current card to rate".to_string()));
    let summary = s.summary();
    assert_eq!(summary.total_reviewed, 3);
    assert_eq!(summary.again_count, 1);
    assert_eq!(summary.hard_count, 0);
    assert_eq!(summary.good_count, 1);
    assert_eq!(summary.easy_count, 1);
    assert_eq!(
        summary.again_count + summary.hard_count + summary.good_count + summary.easy_count,
        summary.total_reviewed
    );
}
