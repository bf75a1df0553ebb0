use metaparse::text_patterns::{build_text_pattern, extract_text_examples};

fn entries(texts: &[&str]) -> Vec<(String, usize)> {
    texts.iter().map(|t| (t.to_string(), 3)).collect()
}

#[test]
fn text_pattern_keeps_frequent_ngrams_and_phrases() {
    let tokens = ["the", "cat", "sat", "on", "the", "mat"];
    let r = build_text_pattern(&tokens, &entries(&["the cat"]), &entries(&["on the"]), 2, 3, 2);
    assert_eq!(r, "the cat [WORD_02] on the [WORD_05]");
}

#[test]
fn text_pattern_prefers_longest_ngram() {
    let tokens = ["a", "b", "c", "d"];
    let r = build_text_pattern(&tokens, &entries(&["a b", "a b c"]), &[], 2, 3, 2);
    assert_eq!(r, "a b c [WORD_03]");
}

#[test]
fn text_pattern_without_frequent_words_is_placeholders() {
    let tokens: Vec<String> = (0..12).map(|i| format!("w{i}")).collect();
    let refs: Vec<&str> = tokens.iter().map(|s| s.as_str()).collect();
    let r = build_text_pattern(&refs, &[], &[], 1, 3, 2);
    let expected: Vec<String> = (0..12).map(|i| format!("[WORD_{:02}]", i)).collect();
    assert_eq!(r, expected.join(" "));
    assert!(r.ends_with("[WORD_10] [WORD_11]"));
}

#[test]
fn text_pattern_of_no_words_is_empty() {
    let r = build_text_pattern(&[], &entries(&["x"]), &[], 1, 2, 1);
    assert_eq!(r, "");
}

#[test]
fn text_examples_collect_dynamic_words() {
    let mut ex: Vec<(String, Vec<String>)> = Vec::new();
    let tokens = ["the", "cat", "sat", "on", "the", "mat"];
    extract_text_examples(&tokens, &entries(&["the cat"]), &entries(&["on the"]), &mut ex, 2, 3, 2, 5);
    assert_eq!(
        ex,
        vec![("WORD_00".to_string(), vec!["sat".to_string()]), ("WORD_01".to_string(), vec!["mat".to_string()])]
    );
    extract_text_examples(&["a", "dog", "sat"], &[], &[], &mut ex, 2, 3, 2, 5);
    assert_eq!(ex[0].1, vec!["sat".to_string(), "a".to_string()]);
    assert_eq!(ex[1].1, vec!["mat".to_string(), "dog".to_string()]);
    assert_eq!(ex[2], ("WORD_02".to_string(), vec!["sat".to_string()]));
}

#[test]
fn text_examples_stop_when_a_placeholder_is_full() {
    let mut ex = vec![("WORD_00".to_string(), vec!["x".to_string()])];
    extract_text_examples(&["y", "z"], &[], &[], &mut ex, 1, 2, 1, 1);
    assert_eq!(ex, vec![("WORD_00".to_string(), vec!["x".to_string(), "y".to_string()])]);
    let mut ex = vec![("WORD_00".to_string(), vec!["y".to_string()])];
    extract_text_examples(&["y", "z"], &[], &[], &mut ex, 1, 2, 1, 1);
    assert_eq!(ex.len(), 2);
}
