use metaparse::columnar::{effective_tabular_sample_rows, feather_hint};
use metaparse::epub::resolve_content_path;
use metaparse::markdown::{
    extract_structure_patterns, parse_block_quote, parse_code_block, parse_header,
    parse_markdown_structure, MarkdownElement,
};
use metaparse::mat::{
    bounded_unique_chars, chars_to_string, is_char_vector_shape, is_mat_scalar_1x1,
    mat_metadata_v73_hdf5_unsupported, normalize_scipy_mat5_header_for_matrw, sample_step,
};
use metaparse::npy_sample::zip_member_target_read_len;
use metaparse::results::{ArrayLayoutSummary, Template};
use metaparse::templates::sort_templates_by_count;

fn template(pattern: &str, count: usize) -> Template {
    Template { pattern: pattern.to_string(), count, examples: Vec::new() }
}

fn layout_with_shape(shape: Option<Vec<usize>>) -> ArrayLayoutSummary {
    ArrayLayoutSummary {
        format_version: None,
        dtype: None,
        shape,
        fortran_order: None,
        header_region_bytes: None,
        data_offset: None,
        data_region_bytes: None,
        expected_data_bytes_from_dtype: None,
    }
}

#[test]
fn templates_sorted_most_common_first_and_stable() {
    let mut t = vec![
        template("a", 2),
        template("b", 5),
        template("c", 2),
        template("d", 7),
        template("e", 5),
    ];
    sort_templates_by_count(&mut t);
    let order: Vec<(&str, usize)> = t.iter().map(|x| (x.pattern.as_str(), x.count)).collect();
    assert_eq!(order, vec![("d", 7), ("b", 5), ("e", 5), ("a", 2), ("c", 2)]);
}

#[test]
fn templates_sort_of_empty_list() {
    let mut t: Vec<Template> = Vec::new();
    sort_templates_by_count(&mut t);
    assert!(t.is_empty());
}

#[test]
fn markdown_code_block_with_language() {
    let lines = vec!["```rust", "fn main() {}", "  let x = 1;", "```", "after"];
    match parse_code_block(&lines, 0) {
        Some((MarkdownElement::CodeBlock { language, content }, next)) => {
            assert_eq!(language.as_deref(), Some("rust"));
            assert_eq!(content, "fn main() {}\n  let x = 1;");
            assert_eq!(next, 4);
        }
        _ => panic!("a closed code block"),
    }
}

#[test]
fn markdown_code_block_unclosed_or_bare() {
    let lines = vec!["```", "text"];
    assert!(parse_code_block(&lines, 0).is_none());
    let lines = vec!["```", "x", "```"];
    match parse_code_block(&lines, 0) {
        Some((MarkdownElement::CodeBlock { language, content }, next)) => {
            assert_eq!(language, None);
            assert_eq!(content, "x");
            assert_eq!(next, 3);
        }
        _ => panic!("a closed code block"),
    }
}

#[test]
fn markdown_block_quote() {
    let lines = vec!["> first", ">", ">  second ", "plain"];
    match parse_block_quote(&lines, 0) {
        Some((MarkdownElement::BlockQuote { text }, next)) => {
            assert_eq!(text, "first second");
            assert_eq!(next, 3);
        }
        _ => panic!("a block quote"),
    }
    assert!(parse_block_quote(&[">", " > "], 0).is_none());
    assert!(parse_block_quote(&["text"], 0).is_none());
    assert!(parse_block_quote(&["> a"], 5).is_none());
}

#[test]
fn mat_header_fixup() {
    let mut data = b"MATLAB 5.0 MAT-file Platform: posix".to_vec();
    data.resize(128, b' ');
    let fixed = normalize_scipy_mat5_header_for_matrw(&data);
    assert_eq!(&fixed[..31], b"MATLAB 5.0 MAT-file, Platform: ");
    assert_eq!(fixed.len(), 128);
    assert_eq!(fixed[116..], data[116..]);
    let official = {
        let mut d = b"MATLAB 5.0 MAT-file, Platform: posix".to_vec();
        d.resize(128, b' ');
        d
    };
    assert_eq!(normalize_scipy_mat5_header_for_matrw(&official), official);
    assert_eq!(normalize_scipy_mat5_header_for_matrw(b"short"), b"short".to_vec());
}

#[test]
fn mat_v73_answer() {
    let m = mat_metadata_v73_hdf5_unsupported(42);
    assert_eq!(m.byte_count, 42);
    assert_eq!(m.mat_format.as_deref(), Some("v7.3"));
    assert!(m.file_parse_error.unwrap().starts_with("MAT v7.3 (HDF5) is not parsed here"));
}

#[test]
fn mat_shapes_and_counts() {
    assert!(is_mat_scalar_1x1(&layout_with_shape(Some(vec![1, 1]))));
    assert!(!is_mat_scalar_1x1(&layout_with_shape(Some(vec![1, 2]))));
    assert!(!is_mat_scalar_1x1(&layout_with_shape(None)));
    assert!(is_char_vector_shape(&layout_with_shape(Some(vec![1, 9]))));
    assert!(!is_char_vector_shape(&layout_with_shape(Some(vec![]))));
    assert!(!is_char_vector_shape(&layout_with_shape(Some(vec![2, 3]))));
    assert_eq!(chars_to_string(&['h', 'i']), "hi");
    assert_eq!(bounded_unique_chars(&['a', 'b', 'a', 'c'], 10), 3);
    assert_eq!(bounded_unique_chars(&['a', 'b', 'a', 'c'], 2), 2);
    assert_eq!(bounded_unique_chars(&[], 0), 0);
    assert_eq!(sample_step(10, 10), 1);
    assert_eq!(sample_step(11, 10), 2);
    assert_eq!(sample_step(30, 10), 3);
    assert_eq!(sample_step(0, 0), 1);
}

#[test]
fn columnar_hints_and_caps() {
    assert!(feather_hint("data.FEATHER", b""));
    assert!(feather_hint("x.arrow", b"FEA1rest"));
    assert!(!feather_hint("x.arrow", b"ARROW1"));
    assert_eq!(effective_tabular_sample_rows(1000, 10), 1000);
    assert_eq!(effective_tabular_sample_rows(1000, 8000), 500);
    assert_eq!(effective_tabular_sample_rows(1, 8000), 1);
    assert_eq!(effective_tabular_sample_rows(2, 1_000_000), 1);
    assert_eq!(effective_tabular_sample_rows(usize::MAX, 4000), usize::MAX / 4000);
}

#[test]
fn epub_content_paths() {
    assert_eq!(resolve_content_path("OEBPS/content.opf", "ch1.xhtml"), "OEBPS/ch1.xhtml");
    assert_eq!(resolve_content_path("content.opf", "ch1.xhtml"), "ch1.xhtml");
    assert_eq!(resolve_content_path("a/b/c.opf", "../x.html"), "a/b/../x.html");
}

#[test]
fn markdown_structure_of_a_document() {
    let doc = "# Title\nSome text\n  continues here\n\n- item one\n- item two\n\n1. first\n> quoted\n> more\n```rust\nlet x = 1;\n```\n---\n## Sub\n";
    let els = parse_markdown_structure(doc);
    let mut seen: Vec<String> = Vec::new();
    for e in &els {
        seen.push(match e {
            MarkdownElement::Header { level, text } => format!("H{level}:{text}"),
            MarkdownElement::Paragraph { text } => format!("P:{text}"),
            MarkdownElement::ListItem { text, ordered } => format!("L{}:{text}", if *ordered { "o" } else { "u" }),
            MarkdownElement::CodeBlock { language, content } => format!("C{}:{content}", language.clone().unwrap_or_default()),
            MarkdownElement::HorizontalRule => "HR".to_string(),
            MarkdownElement::BlockQuote { text } => format!("Q:{text}"),
            _ => "other".to_string(),
        });
    }
    assert_eq!(
        seen,
        vec![
            "H1:Title",
            "P:Some text continues here",
            "Lu:item one",
            "Lu:item two",
            "Lu:first",
            "Q:quoted more",
            "Crust:let x = 1;",
            "HR",
            "H2:Sub",
        ]
    );
}

#[test]
fn markdown_header_needs_space_and_at_most_six_marks() {
    assert!(matches!(parse_header("### Three"), Some(MarkdownElement::Header { level: 3, .. })));
    assert!(parse_header("#NoSpace").is_none());
    assert!(parse_header("####### seven").is_none());
}

#[test]
fn markdown_structure_patterns_counted() {
    let doc = "# A\n# B\n## C\n- one two\n- three four\n\n```rust\nx\n```\n```\ny\n```\n";
    let els = parse_markdown_structure(doc);
    let all = extract_structure_patterns(&els, 1);
    assert_eq!(
        all,
        vec![
            ("[HEADER_1]".to_string(), 2),
            ("[HEADER_2]".to_string(), 1),
            ("[LIST_unordered:words=2]".to_string(), 2),
            ("[CODE_BLOCK:lang=rust]".to_string(), 1),
            ("[CODE_BLOCK:lang=unknown]".to_string(), 1),
        ]
    );
    let frequent = extract_structure_patterns(&els, 2);
    assert_eq!(
        frequent,
        vec![("[HEADER_1]".to_string(), 2), ("[LIST_unordered:words=2]".to_string(), 2)]
    );
}

#[test]
fn zip_member_read_length_covers_header_and_sample() {
    let mut l = layout_with_shape(Some(vec![10, 3]));
    l.dtype = Some("<f8".to_string());
    l.data_offset = Some(128);
    assert_eq!(zip_member_target_read_len(&l, 10_000, 4), 128 + 4 * 3 * 8);
    assert_eq!(zip_member_target_read_len(&l, 100, 4), 100);
    l.data_offset = None;
    assert_eq!(zip_member_target_read_len(&l, 10_000_000, 4), 512 * 1024);
    let bare = layout_with_shape(None);
    assert_eq!(zip_member_target_read_len(&bare, 10_000_000, 4), 512 * 1024);
    assert_eq!(zip_member_target_read_len(&bare, 50, 4), 50);
}
