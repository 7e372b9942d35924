use zen::keys::{KeyCode, KeyPress};
use zen::screens::{
    CardAction, CardEditor, CardMode, FocusedBox, StatsScroll, StatsView, TopicAnswerInput, TopicScreen,
};

fn key(code: KeyCode) -> KeyPress {
    KeyPress { code, ctrl: false, shift: false, alt: false }
}

fn answering() -> TopicAnswerInput {
    TopicAnswerInput {
        state: TopicScreen::ShowingQuestion,
        question_open: true,
        answer: None,
        lines: vec![],
        current_line: String::new(),
    }
}

#[test]
fn topic_answer_is_typed_over_lines_and_submitted() {
    let mut t = answering();
    assert!(t.handle_input(KeyCode::Enter));
    assert_eq!(t.state, TopicScreen::InputtingAnswer);
    for c in "ab".chars() {
        t.handle_input(KeyCode::Char(c));
    }
    t.handle_input(KeyCode::Enter);
    t.handle_input(KeyCode::Char('c'));
    t.handle_input(KeyCode::Enter);
    assert_eq!(t.lines, vec!["ab".to_string(), "c".to_string()]);
    t.handle_input(KeyCode::Enter);
    assert_eq!(t.answer.as_deref(), Some("ab\nc"));
    assert_eq!(t.state, TopicScreen::EvaluatingAnswer);
}

#[test]
fn topic_backspace_on_empty_line_goes_back_a_line() {
    let mut t = answering();
    t.handle_input(KeyCode::Char(' '));
    t.handle_input(KeyCode::Char('x'));
    t.handle_input(KeyCode::Enter);
    t.handle_input(KeyCode::Backspace);
    assert_eq!(t.current_line, "x");
    assert!(t.lines.is_empty());
}

#[test]
fn topic_question_can_be_skipped() {
    let mut t = answering();
    t.handle_input(KeyCode::Char('s'));
    assert_eq!(t.answer.as_deref(), Some("(Skipped)"));
    assert_eq!(t.state, TopicScreen::EvaluatingAnswer);
}

#[test]
fn topic_results_then_complete_ends_the_screen() {
    let mut t = answering();
    t.state = TopicScreen::ShowingResults;
    assert!(t.handle_input(KeyCode::Char(' ')));
    assert_eq!(t.state, TopicScreen::Complete);
    assert!(!t.handle_input(KeyCode::Char(' ')));
}

#[test]
fn stats_scroll_stays_within_the_table() {
    let mut s = StatsScroll { view: StatsView::TopicPerformance, scroll_offset: 0, topic_rows: 3, keyword_rows: 30 };
    s.handle_input(key(KeyCode::Down));
    s.handle_input(key(KeyCode::Down));
    s.handle_input(key(KeyCode::Down));
    assert_eq!(s.scroll_offset, 2);
    s.handle_input(key(KeyCode::Tab));
    assert_eq!(s.view, StatsView::KeywordPerformance);
    assert_eq!(s.scroll_offset, 0);
    s.handle_input(key(KeyCode::PageDown));
    s.handle_input(key(KeyCode::PageDown));
    s.handle_input(key(KeyCode::PageDown));
    assert_eq!(s.scroll_offset, 29);
    s.handle_input(key(KeyCode::PageUp));
    assert_eq!(s.scroll_offset, 19);
    s.handle_input(key(KeyCode::Home));
    assert_eq!(s.scroll_offset, 0);
    s.handle_input(key(KeyCode::End));
    assert_eq!(s.scroll_offset, 29);
    assert!(!s.handle_input(key(KeyCode::Char('q'))));
}

#[test]
fn card_is_written_box_by_box_and_saved() {
    let mut e = CardEditor::new(false);
    for c in "Q?".chars() {
        e.handle_key_event(key(KeyCode::Char(c)));
    }
    e.handle_key_event(key(KeyCode::Tab));
    assert_eq!(e.focused, FocusedBox::UserAnswer);
    for c in "A!".chars() {
        e.handle_key_event(key(KeyCode::Char(c)));
    }
    e.handle_key_event(key(KeyCode::Esc));
    assert_eq!(e.mode, CardMode::Normal);
    let a = e.handle_key_event(key(KeyCode::Char('S')));
    assert_eq!(a, CardAction::SaveUserAnswer);
    assert_eq!(e.card_to_save(&a), Some(("Q?".to_string(), "A!".to_string())));
}

#[test]
fn card_asks_for_a_key_without_configuration() {
    let mut e = CardEditor::new(false);
    e.mode = CardMode::Normal;
    assert_eq!(e.handle_key_event(key(KeyCode::Char('l'))), CardAction::Continue);
    assert_eq!(e.mode, CardMode::ConfigSetup);
    for c in " k1 ".chars() {
        e.handle_key_event(key(KeyCode::Char(c)));
    }
    assert_eq!(e.handle_key_event(key(KeyCode::Enter)), CardAction::SaveConfig("k1".to_string()));
    assert_eq!(e.config_saved(None), CardAction::StartLLMEval);
    assert!(e.has_config);
    assert!(e.api_key_buffer.is_empty());
}

#[test]
fn card_reports_a_failed_configuration_save() {
    let mut e = CardEditor::new(false);
    e.mode = CardMode::ConfigSetup;
    assert_eq!(e.config_saved(Some("disk full".to_string())), CardAction::Continue);
    assert_eq!(e.llm_error.as_deref(), Some("Failed to save config: disk full"));
    assert_eq!(e.mode, CardMode::Normal);
}

#[test]
fn control_c_leaves_the_card_screen() {
    let mut e = CardEditor::new(true);
    let a = e.handle_key_event(KeyPress { code: KeyCode::Char('c'), ctrl: true, shift: false, alt: false });
    assert_eq!(a, CardAction::Exit);
}

#[test]
fn blank_question_is_not_saved() {
    let e = CardEditor::new(true);
    assert_eq!(e.card_to_save(&CardAction::SaveWithoutChoice), None);
}
