use zen::keywords::extract_keywords;

#[test]
fn keywords_drop_stopwords_punctuation_and_repeats() {
    let k = extract_keywords("The Cat sat on the mat; the CAT purred!");
    assert_eq!(k, vec!["cat".to_string(), "sat".to_string(), "mat".to_string(), "purred".to_string()]);
}

#[test]
fn keywords_of_blank_or_stopword_text_are_empty() {
    assert!(extract_keywords("").is_empty());
    assert!(extract_keywords("   \t ").is_empty());
    assert!(extract_keywords("the and of -- !!").is_empty());
}

#[test]
fn keywords_keep_digits_and_unicode_letters() {
    let k = extract_keywords("Ünïcode   42x,  ÉTÉ");
    assert_eq!(k, vec!["ünïcode".to_string(), "42x".to_string(), "été".to_string()]);
}
