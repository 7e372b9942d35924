use zen::config::LLMConfig;
use zen::evaluation::{create_evaluator, Provider};
use zen::evaluation::parse_evaluation_response;

#[test]
fn sections_are_read_by_label() {
    let r = parse_evaluation_response(
        "IDEAL_ANSWER: Rust is a systems language\nwith ownership.\nSCORE: 85\nFEEDBACK: Good.\nMention borrowing.\n",
    );
    assert_eq!(r.ideal_answer, "Rust is a systems language with ownership.");
    assert_eq!(r.score_text.as_deref(), Some("85"));
    assert_eq!(r.feedback, "Good. Mention borrowing.");
}

#[test]
fn carriage_returns_and_blank_labels_are_handled() {
    let r = parse_evaluation_response("FEEDBACK:\r\n  needs work  \r\nSCORE:  40 \r\n");
    assert_eq!(r.ideal_answer, "");
    assert_eq!(r.feedback, "needs work");
    assert_eq!(r.score_text.as_deref(), Some("40"));
}

#[test]
fn unlabelled_text_becomes_the_feedback() {
    let r = parse_evaluation_response("I cannot grade this.");
    assert_eq!(r.ideal_answer, "");
    assert_eq!(r.score_text, None);
    assert_eq!(r.feedback, "I cannot grade this.");
}

#[test]
fn last_score_line_wins() {
    let r = parse_evaluation_response("SCORE: 10\nIDEAL_ANSWER: x\nSCORE: 90");
    assert_eq!(r.score_text.as_deref(), Some("90"));
    assert_eq!(r.ideal_answer, "x");
}

use zen::evaluation::{build_evaluation_prompt, build_question_prompt};

#[test]
fn test_groq_evaluation_prompt_building() {
    let prompt = build_evaluation_prompt("What is Rust?", "A programming language");
    assert!(prompt.contains("What is Rust?"));
    assert!(prompt.contains("A programming language"));
    assert!(prompt.contains("SCORE"));
    assert!(prompt.contains("FEEDBACK"));
}

#[test]
fn test_groq_question_prompt_building() {
    let keywords = vec!["Rust".to_string(), "ownership".to_string()];
    let previous = vec!["What is ownership in Rust?".to_string()];
    let prompt = build_question_prompt(&keywords, &previous);
    assert!(prompt.contains("Rust"));
    assert!(prompt.contains("ownership"));
    assert!(prompt.contains("question"));
    assert!(prompt.contains("Previous questions"));
}

#[test]
fn question_prompt_lists_keywords_and_numbers_previous_questions() {
    let keywords = vec!["a".to_string(), "b".to_string()];
    let previous = vec!["q1".to_string(), "q2".to_string()];
    let prompt = build_question_prompt(&keywords, &previous);
    assert!(prompt.contains("covers these topics: a, b\n\n"));
    assert!(prompt.contains("(DO NOT repeat these aspects):\n1. q1\n2. q2\n\nGenerate a question"));
    assert!(prompt.ends_with("\n\nProvide ONLY the question text, nothing else."));
    let first = build_question_prompt(&keywords, &[]);
    assert!(!first.contains("Previous questions"));
}

#[test]
fn evaluation_prompt_places_question_and_answer() {
    let p = build_evaluation_prompt("Q", "A");
    assert!(p.starts_with("You are a teacher grading an exam answer.\n\nQuestion: Q\nStudent's Answer: A\n\n"));
}

#[test]
fn create_evaluator_accepts_groq_only() {
    let groq = LLMConfig { provider: "groq".into(), api_key: "k".into(), model: "m".into() };
    assert_eq!(create_evaluator(&groq), Ok(Provider::Groq));
    let other = LLMConfig { provider: "openai".into(), api_key: "k".into(), model: "m".into() };
    assert_eq!(create_evaluator(&other), Err("Unknown provider: openai".to_string()));
}
