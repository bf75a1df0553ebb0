use metaparse::writing::writing_tallies;

#[test]
fn writing_tallies_count_words_and_punctuation() {
    let sentences = vec![
        "Hello, world.".to_string(),
        "Is it \"true\"?".to_string(),
        "Wow!".to_string(),
        "plain".to_string(),
    ];
    let content = "Hello, world. Is it true? Wow! -- hello hello";
    let t = writing_tallies(&sentences, content);
    assert_eq!(t.total_words, 8);
    assert_eq!(t.unique_words, 7);
    assert_eq!(t.sentence_words, 7);
    assert_eq!(t.period_count, 1);
    assert_eq!(t.question_count, 1);
    assert_eq!(t.exclamation_count, 1);
    assert_eq!(t.dialogue_count, 1);
    assert_eq!(t.comma_count, 1);
    assert_eq!(t.sentence_count, 4);
}

#[test]
fn writing_tallies_of_nothing_are_zero() {
    let t = writing_tallies(&[], "  ... !! ");
    assert_eq!(t.total_words, 0);
    assert_eq!(t.unique_words, 0);
    assert_eq!(t.sentence_words, 0);
    assert_eq!(t.sentence_count, 0);
}

#[test]
fn writing_tallies_trim_before_checking_the_end() {
    let sentences = vec!["Really?  ".to_string(), "it's".to_string()];
    let t = writing_tallies(&sentences, "");
    assert_eq!(t.question_count, 1);
    assert_eq!(t.dialogue_count, 1);
}
