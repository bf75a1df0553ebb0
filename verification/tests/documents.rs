use lopdf::{Dictionary, Document, Object};
use metaparse::pdf::extract_pdf_metadata;
use metaparse::pdfdate::{extract_date_string_from_debug, format_pdf_date};

fn small_pdf() -> Vec<u8> {
    let mut doc = Document::with_version("1.5");
    let pages_id = doc.new_object_id();
    let mut page = Dictionary::new();
    page.set("Type", Object::Name(b"Page".to_vec()));
    page.set("Parent", Object::Reference(pages_id));
    let page_id = doc.add_object(page);
    let mut pages = Dictionary::new();
    pages.set("Type", Object::Name(b"Pages".to_vec()));
    pages.set("Kids", Object::Array(vec![Object::Reference(page_id)]));
    pages.set("Count", Object::Integer(1));
    doc.objects.insert(pages_id, Object::Dictionary(pages));
    let mut catalog = Dictionary::new();
    catalog.set("Type", Object::Name(b"Catalog".to_vec()));
    catalog.set("Pages", Object::Reference(pages_id));
    let catalog_id = doc.add_object(catalog);
    doc.trailer.set("Root", Object::Reference(catalog_id));
    let mut info = Dictionary::new();
    info.set("Title", Object::string_literal("Report"));
    info.set("CreationDate", Object::string_literal("D:20240102030405+05'30"));
    info.set("ModDate", Object::string_literal("not a date"));
    let info_id = doc.add_object(info);
    doc.trailer.set("Info", Object::Reference(info_id));
    let mut out = Vec::new();
    doc.save_to(&mut out).unwrap();
    out
}

#[test]
fn pdf_info_and_pages() {
    let bytes = small_pdf();
    let m = extract_pdf_metadata(&bytes, bytes.len()).unwrap();
    assert_eq!(m.file_size, Some(bytes.len()));
    assert_eq!(m.pdf_version.as_deref(), Some("1.5"));
    assert_eq!(m.page_count, Some(1));
    assert_eq!(m.is_encrypted, Some(false));
    assert_eq!(m.title.as_deref(), Some("Report"));
    assert_eq!(m.author, None);
    assert_eq!(m.creation_date.as_deref(), Some("2024-01-02T03:04:05+05:30"));
    assert_eq!(m.modification_date, None);
}

#[test]
fn pdf_unreadable_keeps_size() {
    let m = extract_pdf_metadata(b"%not a pdf", 10).unwrap();
    assert_eq!(m.file_size, Some(10));
    assert_eq!(m.pdf_version, None);
    assert_eq!(m.page_count, None);
    assert_eq!(m.is_encrypted, None);
}

#[test]
fn pdf_dates_to_iso8601() {
    assert_eq!(format_pdf_date("D:20240102030405+05'30").as_deref(), Some("2024-01-02T03:04:05+05:30"));
    assert_eq!(format_pdf_date("20240102").as_deref(), Some("2024-01-02T00:00:00+00:00"));
    assert_eq!(format_pdf_date("D:20240102030405Z").as_deref(), Some("2024-01-02T03:04:05+00:00"));
    assert_eq!(format_pdf_date("D:20240102030405-08").as_deref(), Some("2024-01-02T03:04:05-08:00"));
    assert_eq!(format_pdf_date("D:2024"), None);
    assert_eq!(format_pdf_date("D:20230115143045").as_deref(), Some("2023-01-15T14:30:45+00:00"));
    assert_eq!(format_pdf_date("D:20241302"), None);
    assert_eq!(format_pdf_date("D:2024010203"), Some("2024-01-02T03:00:00+00:00".to_string()));
    assert_eq!(format_pdf_date("D:20240102250000"), None);
}

#[test]
fn pdf_date_debug_form() {
    assert_eq!(extract_date_string_from_debug("Date(D:2024)"), "D:2024");
    assert_eq!(extract_date_string_from_debug("D:2024"), "D:2024");
    assert_eq!(extract_date_string_from_debug("Date(x"), "Date(x");
}
