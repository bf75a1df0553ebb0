use metaparse::csv::{
    delimiter_byte_for_reader, detect_delimiter_byte, detect_escape_character,
    detect_quote_character, dominant_delimiter_char, extract_csv_metadata,
    format_delimiter_for_metadata,
};
use metaparse::npy::{numpy_descr_element_nbytes, parse_npy_prefix};
use metaparse::npy_sample::{column_common_from_npy_bytes, numpy_descr_skips_tabular_stats, CellValue};

fn npy_bytes(header: &str, payload: &[u8]) -> Vec<u8> {
    let mut b = vec![0x93, b'N', b'U', b'M', b'P', b'Y', 1, 0];
    let h = format!("{}\n", header);
    b.push((h.len() & 0xff) as u8);
    b.push((h.len() >> 8) as u8);
    b.extend_from_slice(h.as_bytes());
    b.extend_from_slice(payload);
    b
}

#[test]
fn csv_with_header_rows() {
    let m = extract_csv_metadata(b"name,age\nalice,30\nbob,25\n", "people.csv", 100);
    assert_eq!(m.common.row_count, 2);
    assert_eq!(m.common.column_count, 2);
    assert_eq!(m.common.encoding.as_deref(), Some("UTF-8"));
    assert_eq!(m.common.stats_rows_sampled, Some(2));
    assert_eq!(extract_csv_metadata(b"a,b\n1,2\n3,4\n5,6\n", "t.csv", 2).common.stats_rows_sampled, Some(2));
    assert_eq!(extract_csv_metadata(b"a,b\n1,2\n", "t.csv", 0).common.stats_rows_sampled, Some(1));
    assert_eq!(m.delimiter.as_deref(), Some(","));
    assert_eq!(m.has_header, Some(true));
    assert_eq!(m.column_names, Some(vec!["name".to_string(), "age".to_string()]));
    assert_eq!(m.quote_character, None);
    assert_eq!(m.escape_character, None);
}

#[test]
fn csv_path_hint_for_tab() {
    let m = extract_csv_metadata(b"a\tb\n1\t2\n", "x.TSV", 10);
    assert_eq!(m.delimiter.as_deref(), Some("\\t"));
    assert_eq!(m.common.row_count, 1);
    assert_eq!(m.common.column_count, 2);
}

#[test]
fn csv_not_utf8() {
    let m = extract_csv_metadata(&[0xff, b',', b'a'], "bad.csv", 10);
    assert_eq!(m.common.encoding.as_deref(), Some("Non-UTF-8"));
    assert_eq!(m.common.row_count, 0);
    assert_eq!(m.delimiter, None);
    assert_eq!(m.has_header, None);
    assert_eq!(m.common.stats_rows_sampled, None);
    assert_eq!(m.quote_character, None);
}

#[test]
fn delimiter_detection() {
    assert_eq!(dominant_delimiter_char("a;b;c\n1;2;3\n"), Some(';'));
    assert_eq!(dominant_delimiter_char("a,b|c|d\n"), Some('|'));
    assert_eq!(dominant_delimiter_char("plain words\n"), None);
    assert_eq!(dominant_delimiter_char(""), None);
    assert_eq!(detect_delimiter_byte(""), b',');
    assert_eq!(detect_delimiter_byte("x\ty\n"), b'\t');
    assert_eq!(delimiter_byte_for_reader("a,b", "f.psv"), b'|');
    assert_eq!(delimiter_byte_for_reader("a;b", "f.csv"), b';');
    assert_eq!(format_delimiter_for_metadata(b'\t'), "\\t");
    assert_eq!(format_delimiter_for_metadata(b'|'), "|");
}

#[test]
fn quote_and_escape_detection() {
    let text = "\"a\",\"b\"\n\"1\",\"2\"\n";
    assert_eq!(detect_quote_character(text, ','), Some("\"".to_string()));
    assert_eq!(detect_quote_character("a,b\n", ','), None);
    assert_eq!(
        detect_escape_character("a,\"x\\\"y\"\n", Some(","), Some("\"")),
        Some("\\".to_string())
    );
    assert_eq!(
        detect_escape_character("\"a\"\"b\"\n", Some(","), Some("\"")),
        Some("\"".to_string())
    );
    assert_eq!(detect_escape_character("a,b\n", Some(","), None), None);
    assert_eq!(detect_escape_character("", Some(","), Some("\"")), None);
}

#[test]
fn npy_header_fields() {
    let header = "{'descr': '<i4', 'fortran_order': False, 'shape': (2, 3), }";
    let payload: Vec<u8> = (1i32..=6).flat_map(|v| v.to_le_bytes()).collect();
    let bytes = npy_bytes(header, &payload);
    let hlen = header.len() + 1;
    let s = parse_npy_prefix(&bytes, bytes.len()).unwrap();
    assert_eq!(s.format_version.as_deref(), Some("1.0"));
    assert_eq!(s.dtype.as_deref(), Some("<i4"));
    assert_eq!(s.shape, Some(vec![2, 3]));
    assert_eq!(s.fortran_order, Some(false));
    assert_eq!(s.header_region_bytes, Some(hlen));
    assert_eq!(s.data_offset, Some(10 + hlen));
    assert_eq!(s.data_region_bytes, Some(24));
    assert_eq!(s.expected_data_bytes_from_dtype, Some(24));

    let sample = column_common_from_npy_bytes(&bytes, &s, 100);
    assert_eq!(sample.common.row_count, 2);
    assert_eq!(sample.common.column_count, 3);
    assert_eq!(sample.common.stats_rows_sampled, Some(2));
    let ints: Vec<Vec<i128>> = sample
        .cells
        .iter()
        .map(|row| {
            row.iter()
                .map(|c| match c {
                    Some(CellValue::Int(v)) => *v,
                    _ => panic!("integer cells"),
                })
                .collect()
        })
        .collect();
    assert_eq!(ints, vec![vec![1, 2, 3], vec![4, 5, 6]]);
}

#[test]
fn npy_prefix_errors() {
    assert_eq!(parse_npy_prefix(b"short", 5).err().unwrap(), "NPY too short for header prefix");
    assert_eq!(
        parse_npy_prefix(b"\x93NUMPX\x01\x00\x00\x00", 10).err().unwrap(),
        "missing \\x93NUMPY magic"
    );
    assert_eq!(
        parse_npy_prefix(b"\x93NUMPY\x03\x01\x00\x00", 10).err().unwrap(),
        "unsupported NPY version 3.1"
    );
    assert_eq!(
        parse_npy_prefix(b"\x93NUMPY\x01\x00\x10\x00abc", 13).err().unwrap(),
        "NPY v1 truncated: need 16 header bytes, have 3"
    );
}

#[test]
fn npy_element_sizes() {
    assert_eq!(numpy_descr_element_nbytes("<f8"), Some(8));
    assert_eq!(numpy_descr_element_nbytes("|S10"), Some(10));
    assert_eq!(numpy_descr_element_nbytes("<U5"), Some(20));
    assert_eq!(numpy_descr_element_nbytes("V16"), Some(16));
    assert_eq!(numpy_descr_element_nbytes("[('a', '<i4')]"), None);
    assert_eq!(numpy_descr_element_nbytes(""), None);
    assert!(numpy_descr_skips_tabular_stats("|O"));
    assert!(numpy_descr_skips_tabular_stats("<f2"));
    assert!(!numpy_descr_skips_tabular_stats("<f8"));
}

#[test]
fn npy_parse_reads_only_the_header() {
    let header = "{'descr': '<f8', 'fortran_order': True, 'shape': (4,), }";
    let full = npy_bytes(header, &[7u8; 32]);
    let prefix = npy_bytes(header, &[]);
    let a = parse_npy_prefix(&full, 100).unwrap();
    let b = parse_npy_prefix(&prefix, 100).unwrap();
    assert_eq!(a.dtype, b.dtype);
    assert_eq!(a.shape, b.shape);
    assert_eq!(a.fortran_order, b.fortran_order);
    assert_eq!(a.data_offset, b.data_offset);
    assert_eq!(a.data_region_bytes, b.data_region_bytes);
}

#[test]
fn reader_delimiter_follows_the_path_extension() {
    let content = "a,b\n1,2\n";
    assert_eq!(delimiter_byte_for_reader(content, "data.TSV"), b'\t');
    assert_eq!(delimiter_byte_for_reader(content, "dir/x.tab/"), b'\t');
    assert_eq!(delimiter_byte_for_reader(content, "x.tsv/."), b'\t');
    assert_eq!(delimiter_byte_for_reader(content, "archive.tar.psv"), b'|');
    assert_eq!(delimiter_byte_for_reader(content, ".tsv"), b',');
    assert_eq!(delimiter_byte_for_reader(content, "x.tsv/.."), b',');
    assert_eq!(delimiter_byte_for_reader(content, "noext"), b',');
}
