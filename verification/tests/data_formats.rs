use metaparse::json::extract_json_metadata;
use metaparse::settings_yaml::{extract_yaml_metadata, YamlTypeInfo};

fn scalar(t: &YamlTypeInfo) -> Option<&str> {
    match t {
        YamlTypeInfo::Scalar(s) => Some(s.as_str()),
        _ => None,
    }
}

#[test]
fn yaml_counts_depth_and_sorted_schema() {
    let text = "c: {d: true}\na: 1\nb:\n  - x\n  - 2.5\n";
    let m = extract_yaml_metadata(text.as_bytes(), text.len()).unwrap();
    assert_eq!(m.file_size, Some(text.len()));
    assert_eq!(m.key_count, Some(4));
    assert_eq!(m.scalar_count, Some(8));
    assert_eq!(m.sequence_count, Some(1));
    assert_eq!(m.map_count, Some(2));
    assert_eq!(m.max_depth, Some(2));
    match m.schema.unwrap() {
        YamlTypeInfo::Mapping(entries) => {
            let keys: Vec<&str> = entries.iter().map(|(k, _)| k.as_str()).collect();
            assert_eq!(keys, vec!["a", "b", "c"]);
            assert_eq!(scalar(&entries[0].1), Some("integer"));
            match &entries[1].1 {
                YamlTypeInfo::Sequence(e) => assert_eq!(scalar(e), Some("string")),
                _ => panic!("b is a sequence"),
            }
            match &entries[2].1 {
                YamlTypeInfo::Mapping(inner) => {
                    assert_eq!(inner.len(), 1);
                    assert_eq!(inner[0].0, "d");
                    assert_eq!(scalar(&inner[0].1), Some("boolean"));
                }
                _ => panic!("c is a mapping"),
            }
        }
        _ => panic!("top level is a mapping"),
    }
}

#[test]
fn yaml_scalars_and_empty_sequences() {
    let m = extract_yaml_metadata(b"[]", 2).unwrap();
    assert_eq!(m.sequence_count, Some(1));
    assert_eq!(m.scalar_count, Some(0));
    assert_eq!(m.max_depth, Some(0));
    match m.schema.unwrap() {
        YamlTypeInfo::Sequence(e) => assert_eq!(scalar(&e), Some("unknown")),
        _ => panic!("a sequence"),
    }
    let m = extract_yaml_metadata(b"~", 1).unwrap();
    assert_eq!(scalar(m.schema.as_ref().unwrap()), Some("null"));
    assert_eq!(m.scalar_count, Some(1));
}

#[test]
fn yaml_parse_error() {
    let e = extract_yaml_metadata(b"a: [1, 2", 8).err().unwrap();
    assert!(e.starts_with("YAML parse error: "));
}

#[test]
fn json_pretty_object() {
    let text = "{\n  \"a\": [1, [2]],\n  \"b\": {}\n}\n";
    let m = extract_json_metadata(text, text.len(), 4);
    assert_eq!(m.byte_count, text.len());
    assert_eq!(m.line_count, 4);
    assert_eq!(m.line_ending.as_deref(), Some("lf"));
    assert_eq!(m.max_line_length, Some(16));
    assert_eq!(m.blank_line_count, None);
    assert_eq!(m.root_type.as_deref(), Some("object"));
    assert_eq!(m.root_object_key_count, Some(2));
    assert_eq!(m.root_array_length, None);
    assert_eq!(m.max_depth, Some(4));
    assert_eq!(m.pretty_printed, Some(true));
}

#[test]
fn json_lines_use_first_line_depth() {
    let text = "{\"x\":1}\n{\"y\":[1]}\n";
    let m = extract_json_metadata(text, text.len(), 2);
    assert_eq!(m.root_type, None);
    assert_eq!(m.max_depth, Some(2));
    assert_eq!(m.max_line_length, Some(9));
    assert_eq!(m.pretty_printed, Some(false));
}

#[test]
fn json_line_endings_and_blanks() {
    let m = extract_json_metadata("[1]\r\n\r\n[2]\n", 11, 3);
    assert_eq!(m.line_ending.as_deref(), Some("mixed"));
    assert_eq!(m.blank_line_count, Some(1));
    assert_eq!(m.max_depth, Some(2));
    let m = extract_json_metadata("[1,2,3]", 7, 1);
    assert_eq!(m.line_ending, None);
    assert_eq!(m.root_type.as_deref(), Some("array"));
    assert_eq!(m.root_array_length, Some(3));
    assert_eq!(m.max_depth, Some(2));
    let m = extract_json_metadata("42", 2, 1);
    assert_eq!(m.root_type, None);
    assert_eq!(m.max_depth, Some(1));
    let m = extract_json_metadata("", 0, 0);
    assert_eq!(m.max_line_length, None);
    assert_eq!(m.max_depth, None);
}
