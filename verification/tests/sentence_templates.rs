use metaparse::sentence_templates::{
    average_sentence_length, build_enriched_structural_pattern, build_templates_from_groups,
    filter_sentences_before_ngrams, frequent_entries, group_sentences_by_pattern,
    group_sentences_by_structure, ngram_and_phrase_frequencies, normalize_text_content,
    precompute_sentence_tokens,
};

fn strings(v: &[&str]) -> Vec<String> {
    v.iter().map(|s| s.to_string()).collect()
}

fn counted(v: &[(&str, usize)]) -> Vec<(String, usize)> {
    v.iter().map(|(s, c)| (s.to_string(), *c)).collect()
}

#[test]
fn sentence_filter_keeps_sentence_like_segments() {
    let mut s = strings(&[
        "Hello world today.",
        "ok",
        "   ",
        "a b c d e",
        "!!! ??? !!!",
        "one two three",
        "x y z",
    ]);
    filter_sentences_before_ngrams(&mut s, 3, 10, 5);
    assert_eq!(s, strings(&["Hello world today.", "a b c d e", "one two three"]));
}

#[test]
fn normalized_text_joins_trimmed_lines_with_letters() {
    let r = normalize_text_content("  Hello there  \n\n---\n  General Kenobi \r\n");
    assert_eq!(r, "Hello there General Kenobi");
    assert_eq!(normalize_text_content(""), "");
}

#[test]
fn sentence_tokens_split_on_whitespace() {
    let t = precompute_sentence_tokens(&strings(&["a  b\tc", ""]));
    assert_eq!(t, vec![strings(&["a", "b", "c"]), Vec::<String>::new()]);
}

#[test]
fn ngram_and_phrase_counts_in_order_of_first_occurrence() {
    let s = strings(&["a b a b", "b a"]);
    let (ngrams, phrases) = ngram_and_phrase_frequencies(&s, 1, 2, 2);
    assert_eq!(ngrams, counted(&[("a", 3), ("b", 3), ("a b", 2), ("b a", 2)]));
    assert_eq!(phrases, counted(&[("a b", 2), ("b a", 2)]));
    let (wide, _) = ngram_and_phrase_frequencies(&s, 1, usize::MAX, 2);
    assert_eq!(wide[..4], ngrams[..]);
    assert_eq!(wide[4..], counted(&[("a b a", 1), ("b a b", 1), ("a b a b", 1)])[..]);
    assert_eq!(frequent_entries(&ngrams, 3), counted(&[("a", 3), ("b", 3)]));
    assert_eq!(frequent_entries(&ngrams, 4), Vec::new());
}

#[test]
fn structural_pattern_around_a_pivot() {
    let tokens = ["the", "quick", "fox", "jumps", "over", "it"];
    let pivots = counted(&[("P_2_fox", 5)]);
    let ngrams = counted(&[("jumps over", 3)]);
    let r = build_enriched_structural_pattern(&tokens, &pivots, &ngrams, 2, 2, 3, 1);
    assert_eq!(r.as_deref(), Some("[PREFIX] fox jumps over [SUFFIX]"));
    let r = build_enriched_structural_pattern(&tokens, &pivots, &ngrams, 2, 2, 3, 5);
    assert_eq!(r.as_deref(), Some("the quick fox jumps over [SUFFIX]"));
    let ngrams2 = counted(&[("the quick", 3)]);
    let r = build_enriched_structural_pattern(&tokens, &pivots, &ngrams2, 2, 2, 3, 1);
    assert_eq!(r.as_deref(), Some("the quick fox [SUFFIX]"));
    assert_eq!(build_enriched_structural_pattern(&tokens, &pivots, &ngrams, 6, 2, 3, 1), None);
    assert_eq!(build_enriched_structural_pattern(&tokens, &Vec::new(), &ngrams, 0, 2, 3, 1), None);
    assert_eq!(build_enriched_structural_pattern(&[], &pivots, &ngrams, 0, 2, 3, 1), None);
}

#[test]
fn sentences_grouped_by_ngram_pattern() {
    let s = strings(&["a b", "c d", "a b"]);
    let t = precompute_sentence_tokens(&s);
    let g = group_sentences_by_pattern(&s, &t, &counted(&[("a b", 2)]), &[], 2, 2, 2);
    assert_eq!(
        g,
        vec![
            ("a b".to_string(), strings(&["a b", "a b"])),
            ("[WORD_00] [WORD_01]".to_string(), strings(&["c d"])),
        ]
    );
}

#[test]
fn sentences_grouped_by_structure_then_ngrams() {
    let s = strings(&["the quick fox jumps over it", "a b"]);
    let pivots = counted(&[("P_2_fox", 5)]);
    let thresholds = vec![0usize; 10];
    let g = group_sentences_by_structure(&s, &pivots, &counted(&[("jumps over", 3)]), &[], &thresholds, 2, 3, 2, 1);
    assert_eq!(
        g,
        vec![
            ("[PREFIX] fox jumps over [SUFFIX]".to_string(), strings(&["the quick fox jumps over it"])),
            ("[WORD_00] [WORD_01]".to_string(), strings(&["a b"])),
        ]
    );
}

#[test]
fn average_words_per_sentence() {
    assert_eq!(average_sentence_length(&strings(&["a b c", "d"])), 2);
    assert_eq!(average_sentence_length(&[]), 0);
}

#[test]
fn templates_from_frequent_short_groups() {
    let groups = vec![
        ("x [WORD_01]".to_string(), strings(&["x y", "x z", "x y"])),
        ("q".to_string(), strings(&["q"])),
    ];
    let ngrams = counted(&[("x", 3)]);
    let t = build_templates_from_groups(&groups, 2, 2, &ngrams, &[], 1, 1, 1, 10, 1, 2);
    assert_eq!(t.len(), 1);
    assert_eq!(t[0].pattern, "x [WORD_01]");
    assert_eq!(t[0].count, 3);
    assert_eq!(t[0].examples, vec![("WORD_00".to_string(), strings(&["y", "z"]))]);
    let capped = build_templates_from_groups(&groups, 2, 2, &ngrams, &[], 1, 1, 1, 2, 1, 5);
    assert_eq!(capped[0].examples, vec![("WORD_00".to_string(), strings(&["y"]))]);
    assert!(build_templates_from_groups(&groups, 2, 0, &ngrams, &[], 1, 1, 1, 10, 1, 2).is_empty());
}
