use std::io::{Cursor, Write};

use metaparse::epub::{
    count_spine_itemrefs, extract_epub_metadata, extract_metadata_from_opf, get_first_attr_value,
    parse_container_rootfile, parse_manifest_from_opf, parse_spine_order_from_opf, EpubMetadata,
};

fn zip_of(members: &[(&str, &str)]) -> Vec<u8> {
    let mut w = zip::ZipWriter::new(Cursor::new(Vec::new()));
    let opts = zip::write::SimpleFileOptions::default().compression_method(zip::CompressionMethod::Stored);
    for (name, text) in members {
        w.start_file(*name, opts).unwrap();
        w.write_all(text.as_bytes()).unwrap();
    }
    w.finish().unwrap().into_inner()
}

const CONTAINER: &str = r#"<?xml version="1.0"?>
<container version="1.0" xmlns="urn:oasis:names:tc:opendocument:xmlns:container">
  <rootfiles><rootfile full-path="OPS/book.opf" media-type="application/oebps-package+xml"/></rootfiles>
</container>"#;

const OPF: &str = r#"<?xml version="1.0"?>
<package xmlns="http://www.idpf.org/2007/opf" xmlns:dc="http://purl.org/dc/elements/1.1/">
  <metadata>
    <dc:title> A Tale </dc:title>
    <dc:creator>Ann Author</dc:creator>
    <dc:creator>Second Author</dc:creator>
    <dc:language>en</dc:language>
    <dc:identifier id="uid">urn:isbn:123</dc:identifier>
  </metadata>
  <manifest>
    <item id="c2" href="c2.xhtml" media-type="application/xhtml+xml"/>
    <item id="c1" href="c1.xhtml" media-type="application/xhtml+xml"/>
    <item id="css" media-type="text/css"/>
  </manifest>
  <spine>
    <itemref idref="c1"/>
    <itemref idref="c2"/>
    <itemref linear="no"/>
  </spine>
  <guide><itemref idref="outside"/></guide>
</package>"#;

fn empty() -> EpubMetadata {
    EpubMetadata { file_size: None, title: None, author: None, language: None, identifier: None, chapter_count: None }
}

#[test]
fn container_names_the_package_document() {
    assert_eq!(parse_container_rootfile(CONTAINER).as_deref(), Some("OPS/book.opf"));
    assert_eq!(parse_container_rootfile("<container><rootfile full_path=\"x.opf\"/></container>").as_deref(), Some("x.opf"));
    assert_eq!(parse_container_rootfile("<container><rootfile/></container>"), None);
    assert_eq!(parse_container_rootfile("not xml <"), None);
}

#[test]
fn first_attribute_value_by_name_order() {
    let keys = vec!["b".to_string(), "a".to_string()];
    let values = vec!["2".to_string(), "1".to_string()];
    assert_eq!(get_first_attr_value(&keys, &values, &["a", "b"]).as_deref(), Some("1"));
    assert_eq!(get_first_attr_value(&keys, &values, &["c", "b"]).as_deref(), Some("2"));
    assert_eq!(get_first_attr_value(&keys, &values, &["c"]), None);
}

#[test]
fn package_document_fields_spine_and_manifest() {
    let mut m = empty();
    extract_metadata_from_opf(OPF, &mut m);
    assert_eq!(m.title.as_deref(), Some("A Tale"));
    assert_eq!(m.author.as_deref(), Some("Ann Author"));
    assert_eq!(m.language.as_deref(), Some("en"));
    assert_eq!(m.identifier.as_deref(), Some("urn:isbn:123"));
    let mut preset = empty();
    preset.title = Some("Kept".to_string());
    extract_metadata_from_opf(OPF, &mut preset);
    assert_eq!(preset.title.as_deref(), Some("Kept"));
    assert_eq!(parse_spine_order_from_opf(OPF), vec!["c1".to_string(), "c2".to_string()]);
    assert_eq!(count_spine_itemrefs(OPF), 2);
    assert_eq!(
        parse_manifest_from_opf(OPF),
        vec![("c1".to_string(), "c1.xhtml".to_string()), ("c2".to_string(), "c2.xhtml".to_string())]
    );
}

#[test]
fn epub_metadata_from_archive() {
    let bytes = zip_of(&[("META-INF/container.xml", CONTAINER), ("OPS/book.opf", OPF)]);
    let m = extract_epub_metadata(&bytes, 999);
    assert_eq!(m.file_size, Some(999));
    assert_eq!(m.title.as_deref(), Some("A Tale"));
    assert_eq!(m.chapter_count, Some(2));
}

#[test]
fn epub_metadata_from_a_common_path_or_nothing() {
    let bytes = zip_of(&[("content.opf", OPF)]);
    let m = extract_epub_metadata(&bytes, 5);
    assert_eq!(m.author.as_deref(), Some("Ann Author"));
    assert_eq!(m.chapter_count, Some(2));
    let locked = zip_of(&[("META-INF/encryption.xml", "<e/>"), ("content.opf", OPF)]);
    let m = extract_epub_metadata(&locked, 5);
    assert_eq!((m.file_size, m.title, m.chapter_count), (Some(5), None, None));
    let m = extract_epub_metadata(b"not a zip", 9);
    assert_eq!((m.file_size, m.title, m.chapter_count), (Some(9), None, None));
    let bare = zip_of(&[("other.txt", "x")]);
    assert_eq!(extract_epub_metadata(&bare, 1).chapter_count, None);
}
