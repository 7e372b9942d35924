use zen::topics::topics_to_review;

fn kw(words: &[&str]) -> Vec<String> {
    words.iter().map(|w| w.to_string()).collect()
}

#[test]
fn topics_to_review_skips_repeats_and_finished_topics() {
    let due = vec![
        kw(&["rust", "ownership"]),
        kw(&["rust", "ownership"]),
        kw(&["tcp"]),
        kw(&["dns"]),
        kw(&["tcp"]),
    ];
    let answered = vec![1, 0, 3, 2, 0];
    assert_eq!(topics_to_review(&due, &answered), vec![0, 3]);
}

#[test]
fn topics_to_review_compares_joined_keywords() {
    let due = vec![kw(&["a,b"]), kw(&["a", "b"]), kw(&[])];
    let answered = vec![0, 0, 0];
    assert_eq!(topics_to_review(&due, &answered), vec![0, 2]);
}
