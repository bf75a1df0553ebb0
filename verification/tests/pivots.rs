use metaparse::pivots::{
    cleaned_words, common_pivots, extract_pivot_points, find_pivot_position, split_words, svo_tallies,
    MAX_PIVOT_SENTENCES,
};

fn sentences(list: &[&str]) -> Vec<String> {
    list.iter().map(|s| s.to_string()).collect()
}

#[test]
fn pivots_frequent_word_with_varied_followers() {
    let s = sentences(&["The cat sat", "the dog ran", "THE cow ate", "A bird flew"]);
    let r = extract_pivot_points(&s, 2, 2, 10);
    assert_eq!(r, vec![("P_0_the".to_string(), 3)]);
}

#[test]
fn pivots_variation_bounds_exclude() {
    let s = sentences(&["The cat sat", "the dog ran", "THE cow ate"]);
    assert!(extract_pivot_points(&s, 2, 2, 2).is_empty());
    assert!(extract_pivot_points(&s, 4, 1, 10).is_empty());
    let same = sentences(&["we go", "we go", "we go"]);
    assert!(extract_pivot_points(&same, 2, 2, 10).is_empty());
    assert_eq!(extract_pivot_points(&same, 2, 1, 1), vec![("P_0_we".to_string(), 3)]);
}

#[test]
fn pivots_words_are_cleaned() {
    let s = sentences(&["Hello, world!", "hello -- there", "HELLO again"]);
    let r = extract_pivot_points(&s, 3, 2, 5);
    assert_eq!(r, vec![("P_0_hello".to_string(), 3)]);
    assert_eq!(cleaned_words("Hello, -- W0rld!"), vec!["hello", "", "w0rld"]);
}

#[test]
fn pivots_first_occurrence_order_and_positions() {
    let s = sentences(&["x a b", "y a c", "x a d", "y a e"]);
    let r = extract_pivot_points(&s, 2, 1, 10);
    assert_eq!(
        r,
        vec![("P_0_x".to_string(), 2), ("P_1_a".to_string(), 4), ("P_0_y".to_string(), 2)]
    );
}

#[test]
fn pivots_sentence_cap() {
    let s: Vec<String> = (0..MAX_PIVOT_SENTENCES + 5).map(|_| "x y".to_string()).collect();
    let r = extract_pivot_points(&s, 2, 1, 1);
    assert!(r.is_empty());
    let r = extract_pivot_points(&s[..MAX_PIVOT_SENTENCES], 2, 1, 1);
    assert_eq!(r, vec![("P_0_x".to_string(), MAX_PIVOT_SENTENCES)]);
}

#[test]
fn pivots_split_words() {
    let w = split_words("  a\tbb \u{3000}c ");
    let texts: Vec<String> = w.iter().map(|v| v.iter().collect()).collect();
    assert_eq!(texts, vec!["a", "bb", "c"]);
    assert!(split_words(" \n ").is_empty());
}

#[test]
fn pivots_svo_tallies() {
    let pivots = vec![("P_2_sat".to_string(), 2), ("P_0_we".to_string(), 2)];
    let s = sentences(&["The cat sat on mat", "We go", "nothing here", "A dog SAT"]);
    assert_eq!(find_pivot_position("The cat sat on mat", &pivots), Some((2, "sat".to_string())));
    assert_eq!(find_pivot_position("nothing here", &pivots), None);
    let t = svo_tallies(&s, &pivots);
    assert_eq!(t.sentences_with_pivots, 3);
    assert_eq!(t.total_subject_length, 4);
    assert_eq!(t.subject_count, 2);
    assert_eq!(t.total_object_length, 3);
    assert_eq!(t.object_count, 2);
    assert_eq!(t.pivot_words, vec![("sat".to_string(), 2), ("we".to_string(), 1)]);
}

#[test]
fn pivots_common_ranked_stably() {
    let words = vec![
        ("a".to_string(), 1),
        ("b".to_string(), 3),
        ("c".to_string(), 3),
        ("d".to_string(), 2),
    ];
    assert_eq!(common_pivots(&words, 3), vec!["b", "c", "d"]);
    assert_eq!(common_pivots(&words, 10), vec!["b", "c", "d", "a"]);
    assert!(common_pivots(&words, 0).is_empty());
}
