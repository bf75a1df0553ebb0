use metaparse::settings_xml::{extract_xml_metadata, local_name_of, merge_child, XmlTypeInfo};

fn keys<T>(v: &[(String, T)]) -> Vec<&str> {
    v.iter().map(|(k, _)| k.as_str()).collect()
}

fn element(t: &XmlTypeInfo) -> (&Vec<(String, String)>, &Vec<(String, XmlTypeInfo)>) {
    match t {
        XmlTypeInfo::Element { attributes, children } => (attributes, children),
        XmlTypeInfo::Array(_) => panic!("expected an element"),
    }
}

#[test]
fn xml_settings_counts_and_schema() {
    let doc = br#"<root xmlns:a="urn:a" a:id="1"><item x="1"/><item y="2"/><sub><leaf/></sub></root>"#;
    let m = extract_xml_metadata(doc, doc.len()).ok().unwrap();
    assert_eq!(m.file_size, Some(doc.len()));
    assert_eq!(m.element_count, Some(5));
    assert_eq!(m.attribute_count, Some(4));
    assert_eq!(m.max_depth, Some(3));
    assert_eq!(m.has_namespaces, Some(true));
    let schema = m.schema.unwrap();
    assert_eq!(keys(&schema), vec!["root"]);
    let (attrs, children) = element(&schema[0].1);
    assert_eq!(attrs, &vec![("id".to_string(), "string".to_string())]);
    assert_eq!(keys(children), vec!["item", "sub"]);
    match &children[0].1 {
        XmlTypeInfo::Array(inner) => {
            let (a, c) = element(inner);
            assert_eq!(keys(a), vec!["x", "y"]);
            assert!(c.is_empty());
        }
        _ => panic!("repeated items should fold into an array"),
    }
    let (_, sub_children) = element(&children[1].1);
    assert_eq!(keys(sub_children), vec!["leaf"]);
}

#[test]
fn xml_settings_children_sorted_by_name() {
    let doc = b"<cfg><zeta/><alpha/><mid/></cfg>";
    let m = extract_xml_metadata(doc, doc.len()).ok().unwrap();
    let schema = m.schema.unwrap();
    let (_, children) = element(&schema[0].1);
    assert_eq!(keys(children), vec!["alpha", "mid", "zeta"]);
    assert_eq!(m.has_namespaces, Some(false));
    assert_eq!(m.max_depth, Some(2));
}

#[test]
fn xml_settings_parse_error() {
    let doc = b"<a><b></a>";
    let e = extract_xml_metadata(doc, doc.len()).err().unwrap();
    assert!(e.starts_with("XML parse error: "));
}

#[test]
fn xml_settings_invalid_utf8() {
    let doc = [b'<', b'a', b'>', 0xff, b'<', b'/', b'a', b'>'];
    let e = extract_xml_metadata(&doc, doc.len()).err().unwrap();
    assert!(e.starts_with("XML parse error: "));
}

#[test]
fn xml_settings_empty_document() {
    let m = extract_xml_metadata(b"", 0).ok().unwrap();
    assert_eq!(m.element_count, Some(0));
    assert_eq!(m.attribute_count, Some(0));
    assert_eq!(m.max_depth, Some(0));
    assert!(m.schema.is_none());
}

#[test]
fn xml_local_names() {
    assert_eq!(local_name_of("ns:tag"), "tag");
    assert_eq!(local_name_of("a:b:c"), "b:c");
    assert_eq!(local_name_of("plain"), "plain");
}

#[test]
fn xml_merge_child_twice_gives_array() {
    let mut children = Vec::new();
    let leaf = || XmlTypeInfo::Element { attributes: vec![], children: vec![] };
    merge_child(&mut children, "k".to_string(), leaf());
    assert!(matches!(children[0].1, XmlTypeInfo::Element { .. }));
    merge_child(&mut children, "k".to_string(), leaf());
    assert!(matches!(children[0].1, XmlTypeInfo::Array(_)));
    merge_child(&mut children, "k".to_string(), leaf());
    assert_eq!(children.len(), 1);
    assert!(matches!(children[0].1, XmlTypeInfo::Array(_)));
}
