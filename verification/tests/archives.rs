use std::io::{Cursor, Write};

use metaparse::archive::extract_zip_metadata;
use metaparse::json_templates::{json_template_rows, json_templates_from_rows};
use metaparse::npy::parse_npy_prefix;
use metaparse::npy_sample::column_common_from_npy_bytes;
use metaparse::npz::{extract_npz_metadata, MAX_NPZ_NPY_ENTRIES};

fn zip_bytes(members: &[(&str, &[u8])]) -> Vec<u8> {
    let mut w = zip::ZipWriter::new(Cursor::new(Vec::new()));
    let opts = zip::write::SimpleFileOptions::default().compression_method(zip::CompressionMethod::Stored);
    for (name, data) in members {
        if name.ends_with('/') {
            w.add_directory(*name, opts).unwrap();
        } else {
            w.start_file(*name, opts).unwrap();
            w.write_all(data).unwrap();
        }
    }
    w.finish().unwrap().into_inner()
}

fn npy_bytes(header: &str, payload: &[u8]) -> Vec<u8> {
    let mut b = vec![0x93, b'N', b'U', b'M', b'P', b'Y', 1, 0];
    let h = format!("{}\n", header);
    b.push((h.len() & 0xff) as u8);
    b.push((h.len() >> 8) as u8);
    b.extend_from_slice(h.as_bytes());
    b.extend_from_slice(payload);
    b
}

#[test]
fn zip_listing_leaves_out_clutter_and_directories() {
    let bytes = zip_bytes(&[
        ("__MACOSX/a.txt", b"zz"),
        ("docs/", b""),
        ("docs/a.txt", b"hello"),
        ("docs/.DS_Store", b"x"),
        ("b.bin", b"123"),
    ]);
    let m = extract_zip_metadata(&bytes, bytes.len()).unwrap();
    assert_eq!(m.file_size, Some(bytes.len()));
    let es = m.entries.unwrap();
    let paths: Vec<&str> = es.iter().map(|e| e.path.as_str()).collect();
    assert_eq!(paths, vec!["docs/a.txt", "b.bin"]);
    assert_eq!(m.file_count, Some(2));
    assert_eq!(m.total_uncompressed, Some(8));
    assert_eq!(m.total_compressed, Some(8));
    assert_eq!(es[0].compression_method.as_deref(), Some("Stored"));
    assert_eq!(es[0].detected_type, None);
    assert!(extract_zip_metadata(b"not a zip", 9).is_err());
}

#[test]
fn npz_members_are_parsed_and_sampled() {
    let mut payload = Vec::new();
    for v in [1i32, 2, 3, 4] {
        payload.extend_from_slice(&v.to_le_bytes());
    }
    let good = npy_bytes("{'descr': '<i4', 'fortran_order': False, 'shape': (2, 2), }", &payload);
    let bytes = zip_bytes(&[("x.npy", &good), ("readme.txt", b"hi"), ("B.NPY", b"garbage bytes here")]);
    let m = extract_npz_metadata(&bytes, bytes.len(), 10).unwrap();
    assert_eq!(m.byte_count, bytes.len());
    assert_eq!(m.zip_entry_count, Some(3));
    assert_eq!(m.npy_entries_scanned, Some(2));
    let es = m.npy_entries.unwrap();
    assert_eq!(es[0].name, "x.npy");
    assert_eq!(es[0].uncompressed_size, Some(good.len() as u64));
    let layout = es[0].layout.as_ref().unwrap();
    assert_eq!(layout.dtype.as_deref(), Some("<i4"));
    assert_eq!(layout.shape, Some(vec![2, 2]));
    let sample = es[0].sample.as_ref().unwrap();
    assert_eq!((sample.common.row_count, sample.common.column_count), (2, 2));
    assert_eq!(sample.common.stats_rows_sampled, Some(2));
    assert_eq!(es[0].entry_parse_error, None);
    assert_eq!(es[1].name, "B.NPY");
    assert!(es[1].layout.is_none());
    assert_eq!(es[1].entry_parse_error.as_deref(), Some("parse .npy header inside .npz: missing \\x93NUMPY magic"));
    assert!(extract_npz_metadata(b"nope", 4, 10).is_err());
    assert!(MAX_NPZ_NPY_ENTRIES >= 1);
}

#[test]
fn npy_common_for_skipped_dtype_is_shape_only() {
    let bytes = npy_bytes("{'descr': '|O', 'fortran_order': False, 'shape': (4, 5), }", &[0u8; 240]);
    let s = parse_npy_prefix(&bytes, bytes.len()).unwrap();
    let sample = column_common_from_npy_bytes(&bytes, &s, 10);
    assert_eq!((sample.common.row_count, sample.common.column_count), (4, 5));
    assert_eq!(sample.common.encoding.as_deref(), Some("numpy"));
    assert_eq!(sample.common.stats_rows_sampled, None);
}

#[test]
fn json_templates_group_rows_by_pattern() {
    let (rows, headers) = json_template_rows(r#"[{"a":1,"b":"x"},{"a":1,"b":"y"},{"a":2,"b":"x"}]"#);
    assert_eq!(rows.len(), 3);
    assert!(headers.is_none());
    let t = json_templates_from_rows(&rows, headers.as_ref(), 2, 10, 100);
    let pats: Vec<&str> = t.iter().map(|t| t.pattern.as_str()).collect();
    assert_eq!(pats, vec![r#"{"a": 1, "b": "x"}"#, r#"{"a": 1, "b": [VALUE]}"#, r#"{"a": [VALUE], "b": "x"}"#]);
    assert_eq!(t.iter().map(|t| t.count).sum::<usize>(), 3);
    assert_eq!(
        t[1].examples,
        vec![("a_VALUE".to_string(), vec!["1".to_string()]), ("b_VALUE".to_string(), vec!["y".to_string()])]
    );
}

#[test]
fn json_templates_with_headers_and_lines() {
    let (rows, headers) = json_template_rows(r#"[["h1","h2"],[1,2],[1,3]]"#);
    assert_eq!(headers, Some(vec!["h1".to_string(), "h2".to_string()]));
    let t = json_templates_from_rows(&rows, headers.as_ref(), 2, 10, 100);
    assert_eq!(t.len(), 1);
    assert_eq!(t[0].pattern, r#"["h1": 1, "h2": [VALUE]]"#);
    assert_eq!(t[0].count, 2);
    assert_eq!(t[0].examples[1], ("h2_VALUE".to_string(), vec!["2".to_string(), "3".to_string()]));
    let (lines, h) = json_template_rows("{\"a\":1}\nnot json\n{\"a\":[1,2]}");
    assert_eq!(lines.len(), 2);
    assert!(h.is_none());
    let t = json_templates_from_rows(&lines, None, 5, 10, 100);
    assert_eq!(t.len(), 1);
    assert_eq!(t[0].pattern, r#"{"a": [VALUE]}"#);
    assert_eq!(t[0].count, 2);
    assert_eq!(
        t[0].examples,
        vec![("a_VALUE".to_string(), vec!["1".to_string(), "Array [Number(1), Number(2)]".to_string()])]
    );
    let (scalars, _) = json_template_rows("[1, 2]");
    let t = json_templates_from_rows(&scalars, None, 1, 10, 100);
    assert_eq!(t[0].pattern, "[VALUE]");
    assert_eq!(t[0].count, 2);
}
