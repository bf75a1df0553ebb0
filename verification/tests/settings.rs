use metaparse::ini::extract_ini_metadata;
use metaparse::settings_toml::{extract_toml_metadata, TomlTypeInfo};

fn scalar_name(t: &TomlTypeInfo) -> Option<&str> {
    match t {
        TomlTypeInfo::Scalar(s) => Some(s.as_str()),
        _ => None,
    }
}

#[test]
fn toml_counts_depth_and_schema() {
    let m = extract_toml_metadata(b"[a]\nb = 1\n[c.d]\ne = [1]\n", 24).unwrap();
    assert_eq!(m.file_size, Some(24));
    assert_eq!(m.section_count, Some(4));
    assert_eq!(m.key_count, Some(5));
    assert_eq!(m.max_depth, Some(3));
    let schema = m.schema.unwrap();
    assert_eq!(schema.len(), 2);
    assert_eq!(schema[0].0, "a");
    match &schema[0].1 {
        TomlTypeInfo::Table(t) => {
            assert_eq!(t.len(), 1);
            assert_eq!(t[0].0, "b");
            assert_eq!(scalar_name(&t[0].1), Some("integer"));
        }
        _ => panic!("a is a table"),
    }
    assert_eq!(schema[1].0, "c");
    match &schema[1].1 {
        TomlTypeInfo::Table(t) => match &t[0].1 {
            TomlTypeInfo::Table(d) => match &d[0].1 {
                TomlTypeInfo::Array(e) => assert_eq!(scalar_name(e), Some("integer")),
                _ => panic!("e is an array"),
            },
            _ => panic!("d is a table"),
        },
        _ => panic!("c is a table"),
    }
}

#[test]
fn toml_scalars_and_empty_arrays() {
    let m = extract_toml_metadata(b"s = \"x\"\nf = 1.5\nb = true\nd = 1979-05-27\nz = []\n", 0).unwrap();
    assert_eq!(m.section_count, Some(1));
    assert_eq!(m.key_count, Some(5));
    assert_eq!(m.max_depth, Some(1));
    let schema = m.schema.unwrap();
    let mut names: Vec<&str> = schema.iter().map(|(k, _)| k.as_str()).collect();
    names.sort();
    assert_eq!(names, vec!["b", "d", "f", "s", "z"]);
    let info = |key: &str| &schema.iter().find(|(k, _)| k == key).unwrap().1;
    assert_eq!(scalar_name(info("b")), Some("boolean"));
    assert_eq!(scalar_name(info("d")), Some("datetime"));
    assert_eq!(scalar_name(info("f")), Some("float"));
    assert_eq!(scalar_name(info("s")), Some("string"));
    match info("z") {
        TomlTypeInfo::Array(e) => assert_eq!(scalar_name(e), Some("unknown")),
        _ => panic!("z is an array"),
    }
}

#[test]
fn toml_empty_document() {
    let m = extract_toml_metadata(b"", 0).unwrap();
    assert_eq!(m.section_count, Some(1));
    assert_eq!(m.key_count, Some(0));
    assert_eq!(m.max_depth, Some(0));
    assert_eq!(m.schema.map(|s| s.len()), Some(0));
}

#[test]
fn toml_errors() {
    let e = extract_toml_metadata(&[0xff], 1).err().unwrap();
    assert_eq!(e, "TOML must be valid UTF-8: invalid utf-8 sequence of 1 bytes from index 0");
    let e = extract_toml_metadata(b"a = ", 4).err().unwrap();
    assert!(e.starts_with("TOML parse error: "));
}

#[test]
fn ini_sections_keys_comments_and_multiline() {
    let text = "; comment\n[main]\nname = demo\nempty =\n  line1\n  line2\n\n# c2\n[other]\nk=v\n";
    let m = extract_ini_metadata(text.as_bytes(), text.len()).unwrap();
    assert_eq!(m.file_size, Some(text.len()));
    assert_eq!(m.section_count, Some(2));
    assert_eq!(m.key_count, Some(3));
    assert_eq!(m.comment_count, Some(2));
    assert_eq!(m.max_depth, Some(2));
    let e: Vec<(&str, &str, &str)> = m
        .entries
        .iter()
        .map(|x| (x.section.as_str(), x.key.as_str(), x.value.as_str()))
        .collect();
    assert_eq!(
        e,
        vec![("main", "name", "demo"), ("main", "empty", "  line1\n  line2"), ("other", "k", "v")]
    );
}

#[test]
fn ini_without_assignments_has_no_depth() {
    let m = extract_ini_metadata(b"# only a comment\n[s]\n", 20).unwrap();
    assert_eq!(m.section_count, Some(1));
    assert_eq!(m.key_count, Some(0));
    assert_eq!(m.max_depth, None);
}

#[test]
fn ini_rejects_invalid_utf8() {
    let e = extract_ini_metadata(&[b'a', 0xc3], 2).err().unwrap();
    assert_eq!(e, "INI must be valid UTF-8: incomplete utf-8 byte sequence from index 1");
}
