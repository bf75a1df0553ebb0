use std::io::{Cursor, Write};

use metaparse::office::{
    extract_docx_metadata, extract_pptx_metadata, extract_xlsx_metadata, has_namespace,
    parse_i64_chars, process_core_property,
};
use metaparse::results::{DocumentMetadata, SheetSize};
use metaparse::xml::{decode_xml_entities, decode_xml_entities_fallback, xml_events, XmlEvent};

fn zip_of(members: &[(&str, &str)]) -> Vec<u8> {
    let mut w = zip::ZipWriter::new(Cursor::new(Vec::new()));
    let opts = zip::write::SimpleFileOptions::default()
        .compression_method(zip::CompressionMethod::Stored);
    for (name, text) in members {
        w.start_file(*name, opts).unwrap();
        w.write_all(text.as_bytes()).unwrap();
    }
    w.finish().unwrap().into_inner()
}

fn empty_metadata() -> DocumentMetadata {
    DocumentMetadata {
        file_size: None,
        title: None,
        author: None,
        subject: None,
        description: None,
        creation_date: None,
        modified_date: None,
        last_modified_by: None,
        revision: None,
        word_count: None,
        character_count: None,
        character_count_no_spaces: None,
        paragraph_count: None,
        sheet_count: None,
        sheet_stats: None,
    }
}

const CORE_XML: &str = "<cp:coreProperties xmlns:cp=\"a\" xmlns:dc=\"b\" xmlns:dcterms=\"c\">\
<dc:title> My Title </dc:title><dc:creator>Ann</dc:creator><cp:revision>7</cp:revision>\
<dcterms:created>2024-01-02T03:04:05Z</dcterms:created><cp:lastModifiedBy>Bob</cp:lastModifiedBy>\
</cp:coreProperties>";

#[test]
fn docx_body_counts_and_core_properties() {
    let body = "<w:document xmlns:w=\"x\"><w:body>\
<w:p><w:r><w:t>Hello world</w:t></w:r></w:p>\
<w:p><w:r><w:t>Second  line here</w:t></w:r></w:p>\
</w:body></w:document>";
    let bytes = zip_of(&[("word/document.xml", body), ("docProps/core.xml", CORE_XML)]);
    let m = extract_docx_metadata(&bytes, 1234);
    assert_eq!(m.file_size, Some(1234));
    assert_eq!(m.word_count, Some(5));
    assert_eq!(m.character_count, Some(30));
    assert_eq!(m.character_count_no_spaces, Some(24));
    assert_eq!(m.paragraph_count, Some(2));
    assert_eq!(m.title.as_deref(), Some("My Title"));
    assert_eq!(m.author.as_deref(), Some("Ann"));
    assert_eq!(m.revision, Some(7));
    assert_eq!(m.creation_date.as_deref(), Some("2024-01-02T03:04:05Z"));
    assert_eq!(m.last_modified_by.as_deref(), Some("Bob"));
    assert_eq!(m.subject, None);
}

#[test]
fn docx_without_body_keeps_only_size() {
    let bytes = zip_of(&[("docProps/core.xml", CORE_XML)]);
    let m = extract_docx_metadata(&bytes, 10);
    assert_eq!(m.file_size, Some(10));
    assert_eq!(m.title, None);
    assert_eq!(m.word_count, None);
}

#[test]
fn docx_that_is_not_an_archive() {
    let m = extract_docx_metadata(b"plain text, not a zip", 21);
    assert_eq!(m.file_size, Some(21));
    assert_eq!(m.paragraph_count, None);
}

#[test]
fn pptx_slides_and_core_properties() {
    let core = "<cp:coreProperties xmlns:cp=\"a\" xmlns:dc=\"b\" xmlns:dcterms=\"c\">\
<dc:title>Deck</dc:title><dcterms:modified>2024-05-06</dcterms:modified>\
<dc:subject>ignored for decks</dc:subject></cp:coreProperties>";
    let pres = "<p:presentation xmlns:p=\"p\"><p:sldIdLst><p:sldId id=\"256\"/>\
<p:sldId id=\"257\"/><p:sldId id=\"258\"></p:sldId></p:sldIdLst></p:presentation>";
    let bytes = zip_of(&[("docProps/core.xml", core), ("ppt/presentation.xml", pres)]);
    let m = extract_pptx_metadata(&bytes, 99).unwrap();
    assert_eq!(m.file_size, Some(99));
    assert_eq!(m.title.as_deref(), Some("Deck"));
    assert_eq!(m.modification_date.as_deref(), Some("2024-05-06"));
    assert_eq!(m.author, None);
    assert_eq!(m.slide_count, Some(3));
}

#[test]
fn pptx_that_is_not_an_archive() {
    let m = extract_pptx_metadata(b"nope", 4).unwrap();
    assert_eq!(m.file_size, Some(4));
    assert_eq!(m.slide_count, None);
}

#[test]
fn xlsx_sheet_count_prefers_workbook() {
    let app = "<Properties><TitlesOfParts><vt:vector xmlns:vt=\"v\">\
<vt:lpstr>Sheet1</vt:lpstr><vt:lpstr>  </vt:lpstr><vt:lpstr>Data</vt:lpstr>\
</vt:vector></TitlesOfParts></Properties>";
    let workbook = "<workbook><sheets><sheet name=\"Sheet1\" sheetId=\"1\"/>\
<sheet name=\"Data\" sheetId=\"2\"/><sheet name=\"Third\" sheetId=\"3\"/></sheets></workbook>";
    let bytes = zip_of(&[
        ("docProps/core.xml", CORE_XML),
        ("docProps/app.xml", app),
        ("xl/workbook.xml", workbook),
    ]);
    let sizes = vec![SheetSize { name: "Sheet1".to_string(), rows: 4, columns: 2 }];
    let m = extract_xlsx_metadata(&bytes, 500, sizes).unwrap();
    assert_eq!(m.sheet_count, Some(3));
    assert_eq!(m.title.as_deref(), Some("My Title"));
    let stats = m.sheet_stats.unwrap();
    assert_eq!(stats.len(), 1);
    assert_eq!(stats[0].name, "Sheet1");
    assert_eq!((stats[0].rows, stats[0].columns), (4, 2));
}

#[test]
fn xlsx_app_titles_when_no_workbook() {
    let app = "<Properties><vt:lpstr>One</vt:lpstr><vt:lpstr>Two</vt:lpstr></Properties>";
    let bytes = zip_of(&[("docProps/app.xml", app)]);
    let m = extract_xlsx_metadata(&bytes, 7, Vec::new()).unwrap();
    assert_eq!(m.sheet_count, Some(2));
    assert!(m.sheet_stats.is_none());
}

#[test]
fn xlsx_not_an_archive_ignores_sheet_sizes() {
    let sizes = vec![SheetSize { name: "S".to_string(), rows: 1, columns: 1 }];
    let m = extract_xlsx_metadata(b"xx", 2, sizes).unwrap();
    assert_eq!(m.file_size, Some(2));
    assert!(m.sheet_stats.is_none());
}

#[test]
fn namespace_is_an_infix_test() {
    assert!(has_namespace(b"dc:title", b"dc"));
    assert!(has_namespace(b"dcterms:created", b"dc"));
    assert!(!has_namespace(b"dcterms:created", b"cp"));
    assert!(!has_namespace(b"d", b"dc"));
}

#[test]
fn core_property_revision_and_blank_text() {
    let mut m = empty_metadata();
    process_core_property(b"cp:revision", " 12 ", &mut m);
    assert_eq!(m.revision, Some(12));
    process_core_property(b"dc:title", "   ", &mut m);
    assert_eq!(m.title, None);
    process_core_property(b"dc:description", " About ", &mut m);
    assert_eq!(m.description.as_deref(), Some("About"));
    process_core_property(b"cp:revision", "x1", &mut m);
    assert_eq!(m.revision, Some(12));
}

#[test]
fn i64_parsing_matches_from_str() {
    let p = |s: &str| parse_i64_chars(&s.chars().collect::<Vec<char>>());
    assert_eq!(p("-9223372036854775808"), Some(i64::MIN));
    assert_eq!(p("9223372036854775807"), Some(i64::MAX));
    assert_eq!(p("9223372036854775808"), None);
    assert_eq!(p("+5"), Some(5));
    assert_eq!(p("-"), None);
    assert_eq!(p(""), None);
    assert_eq!(p("1 2"), None);
}

#[test]
fn xml_event_stream_of_a_small_document() {
    let evs = xml_events("<a k='1'>hi</a>");
    assert_eq!(evs.len(), 4);
    assert!(matches!(&evs[0], XmlEvent::Tag(name, attr_keys, values, false) if name == "a" && attr_keys == &vec!["k".to_string()] && values == &vec!["1".to_string()]));
    let tag = xml_events("<b x=\"2\" y='q'/>");
    assert!(matches!(&tag[0], XmlEvent::Tag(name, k, v, true) if name == "b" && k == &vec!["x".to_string(), "y".to_string()] && v == &vec!["2".to_string(), "q".to_string()]));
    assert!(matches!(&evs[1], XmlEvent::Text(text) if text == "hi"));
    assert!(matches!(&evs[2], XmlEvent::End(name) if name == "a"));
    assert!(matches!(&evs[3], XmlEvent::Eof));
}

#[test]
fn xml_event_stream_stops_at_error() {
    let evs = xml_events("<a></b>");
    assert!(matches!(evs.last(), Some(XmlEvent::Error(_))));
}

#[test]
fn entity_fallback_replaces_in_order() {
    assert_eq!(decode_xml_entities_fallback("&amp;lt;b&gt;"), "&lt;b>");
    assert_eq!(decode_xml_entities_fallback("&amp;lt;"), "&lt;");
    assert_eq!(decode_xml_entities_fallback("&lt;b&gt; &amp; &quot;c&quot; &apos;d&apos;"), "<b> & \"c\" 'd'");
    assert_eq!(decode_xml_entities_fallback("a & b &am"), "a & b &am");
    assert_eq!(decode_xml_entities_fallback("&quot;x&apos;"), "\"x'");
    assert_eq!(decode_xml_entities_fallback("plain"), "plain");
}

#[test]
fn entity_decoding_with_fallback() {
    assert_eq!(decode_xml_entities("a &lt; b"), "a < b");
    assert_eq!(decode_xml_entities("bad &foo; &amp;"), "bad &foo; &");
}

#[test]
fn xlsx_templates_are_empty_and_count_the_input_tokens() {
    let r = metaparse::office::extract_xlsx_templates(b"not a spreadsheet", 42).unwrap();
    assert!(r.templates.is_empty());
    assert_eq!(r.original_tokens, 42);
    assert_eq!(r.compressed_tokens, 0);
}
