use metaparse::log_templates::{group_log_lines, PatternPart};
use metaparse::logs::classify_log_positions;

const LOG: &str = "INFO user alice logged in\nINFO user bob logged in\nWARN disk full\n";

fn is_dynamic(p: &PatternPart, at: usize) -> bool {
    matches!(p, PatternPart::Dynamic(i) if *i == at)
}

fn is_static(p: &PatternPart, text: &str) -> bool {
    matches!(p, PatternPart::Static(t) if t == text)
}

#[test]
fn log_lines_group_by_pattern() {
    let classes = classify_log_positions(LOG, 2);
    let t = group_log_lines(LOG, &classes, 10, 10);
    assert_eq!(t.len(), 2);
    assert_eq!(t[0].count, 2);
    assert_eq!(t[0].pattern.len(), 5);
    assert!(is_dynamic(&t[0].pattern[0], 0));
    assert!(is_dynamic(&t[0].pattern[2], 2));
    assert!(is_static(&t[0].pattern[3], "logged"));
    assert!(is_static(&t[0].pattern[4], "in"));
    assert_eq!(t[1].count, 1);
    assert_eq!(t[1].pattern.len(), 3);
    assert_eq!(t.iter().map(|x| x.count).sum::<usize>(), 3);
    assert_eq!(
        t[0].examples,
        vec![
            (0, vec!["INFO".to_string()]),
            (1, vec!["user".to_string()]),
            (2, vec!["alice".to_string(), "bob".to_string()]),
        ]
    );
    assert_eq!(t[1].examples[0], (0, vec!["WARN".to_string()]));
}

#[test]
fn log_examples_come_from_the_first_sample_lines() {
    let classes = classify_log_positions(LOG, 2);
    let t = group_log_lines(LOG, &classes, 1, 10);
    assert_eq!(t[0].examples[2], (2, vec!["alice".to_string()]));
}

#[test]
fn log_examples_stop_a_line_once_a_list_is_over_the_cap() {
    let classes = classify_log_positions(LOG, 2);
    let t = group_log_lines(LOG, &classes, 10, 0);
    assert_eq!(t[0].examples, vec![(0, vec!["INFO".to_string()])]);
}

#[test]
fn log_without_lines_has_no_templates() {
    let classes = classify_log_positions("", 1);
    assert!(group_log_lines("", &classes, 10, 10).is_empty());
}
