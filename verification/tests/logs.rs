use metaparse::logs::{
    classify_log_positions, extract_log_metadata, line_first_token, log_timestamp_candidates,
};

#[test]
fn log_metadata_line_statistics() {
    let content = "2024-01-01 start\r\n\r\n  \r\n2024-01-02 a longer line here\r\n";
    let m = extract_log_metadata(content, content.len(), 4, true);
    assert_eq!(m.byte_count, content.len());
    assert_eq!(m.line_count, 4);
    assert_eq!(m.line_ending.as_deref(), Some("crlf"));
    assert_eq!(m.max_line_length, Some("2024-01-02 a longer line here".len()));
    assert_eq!(m.blank_line_count, Some(2));
    assert_eq!(m.has_timestamps, Some(true));
}

#[test]
fn log_metadata_of_empty_text() {
    let m = extract_log_metadata("", 0, 0, false);
    assert_eq!(m.line_ending, None);
    assert_eq!(m.max_line_length, None);
    assert_eq!(m.blank_line_count, None);
    assert_eq!(m.has_timestamps, Some(false));
}

#[test]
fn log_mixed_line_endings() {
    let m = extract_log_metadata("a\nb\r\nc", 6, 3, false);
    assert_eq!(m.line_ending.as_deref(), Some("mixed"));
    assert_eq!(m.blank_line_count, None);
}

#[test]
fn log_first_tokens_of_opening_lines() {
    let mut content = String::from("  12:00:01 boot\n\n\t \nINFO ready\n");
    for i in 0..20 {
        content.push_str(&format!("line{i} x\n"));
    }
    let c = log_timestamp_candidates(&content);
    assert_eq!(c[0], "12:00:01");
    assert_eq!(c[1], "INFO");
    assert_eq!(c.len(), 2 + 6);
    assert_eq!(c[7], "line5");
}

#[test]
fn log_line_first_token_skips_unicode_space() {
    let line: Vec<char> = "\u{3000}tok\u{A0}rest".chars().collect();
    assert_eq!(line_first_token(&line).as_deref(), Some("tok"));
    let blank: Vec<char> = " \t".chars().collect();
    assert_eq!(line_first_token(&blank), None);
}

#[test]
fn log_positions_classified() {
    let content = "ERROR disk full\nERROR disk ok\nERROR net down\n";
    let c = classify_log_positions(content, 2);
    assert_eq!(c, vec![(0, true, Some("ERROR".to_string())), (1, false, None), (2, false, None)]);
    let c = classify_log_positions(content, 4);
    assert_eq!(c[0], (0, false, None));
    let c = classify_log_positions("a b\na\n", 1);
    assert_eq!(c, vec![(0, true, Some("a".to_string())), (1, true, Some("b".to_string()))]);
    assert_eq!(classify_log_positions("", 1), vec![(0, false, None)]);
    assert_eq!(classify_log_positions("  \n\n", 0), vec![(0, false, None)]);
}
