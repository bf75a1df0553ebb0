//! PDF document metadata: version, page count, encryption and the document
//! information dictionary, dates turned into ISO 8601.

use vstd::prelude::*;
use vstd::utf8::encode_utf8;
use lopdf::Document;

use crate::pdfdate::{format_pdf_date, spec_format_pdf_date};
use crate::pickle::opt_text;

verus! {

/// Metadata of a PDF file.
pub struct PdfMetadata {
    pub file_size: Option<usize>,
    pub pdf_version: Option<String>,
    pub page_count: Option<usize>,
    pub is_encrypted: Option<bool>,
    pub title: Option<String>,
    pub author: Option<String>,
    pub subject: Option<String>,
    pub creator: Option<String>,
    pub producer: Option<String>,
    pub creation_date: Option<String>,
    pub modification_date: Option<String>,
}

/// Model of [`PdfMetadata`].
pub struct PdfView {
    pub file_size: Option<usize>,
    pub pdf_version: Option<Seq<char>>,
    pub page_count: Option<usize>,
    pub is_encrypted: Option<bool>,
    pub title: Option<Seq<char>>,
    pub author: Option<Seq<char>>,
    pub subject: Option<Seq<char>>,
    pub creator: Option<Seq<char>>,
    pub producer: Option<Seq<char>>,
    pub creation_date: Option<Seq<char>>,
    pub modification_date: Option<Seq<char>>,
}

impl View for PdfMetadata {
    type V = PdfView;

    open spec fn view(&self) -> PdfView {
        PdfView {
            file_size: self.file_size,
            pdf_version: opt_text(self.pdf_version),
            page_count: self.page_count,
            is_encrypted: self.is_encrypted,
            title: opt_text(self.title),
            author: opt_text(self.author),
            subject: opt_text(self.subject),
            creator: opt_text(self.creator),
            producer: opt_text(self.producer),
            creation_date: opt_text(self.creation_date),
            modification_date: opt_text(self.modification_date),
        }
    }
}

// ---------------------------------------------------------------------------
// lopdf
// ---------------------------------------------------------------------------

#[verifier::external_type_specification]
#[verifier::external_body]
pub struct ExPdfDocument(Document);

/// Whether lopdf loads `content` as a document.
pub uninterp spec fn pdf_loads(content: Seq<u8>) -> bool;

/// The bytes a loaded document was read from.
pub uninterp spec fn pdf_source(d: Document) -> Seq<u8>;

/// The header version of the document in `content`.
pub uninterp spec fn pdf_version_text(content: Seq<u8>) -> Seq<char>;

/// The number of pages lopdf finds in the document in `content`.
pub uninterp spec fn pdf_page_total(content: Seq<u8>) -> usize;

/// Whether the trailer of the document lopdf loads from `content` has an
/// `Encrypt` entry (lopdf removes it once decrypting with the empty password
/// succeeds on load).
pub uninterp spec fn pdf_encrypted(content: Seq<u8>) -> bool;

/// The text string under `key` in the information dictionary of the document in
/// `content`, where the trailer's `Info` entry resolves to a dictionary holding a
/// text string under that key.
pub uninterp spec fn pdf_info_text(content: Seq<u8>, key: Seq<char>) -> Option<Seq<char>>;

/// `Document::load_mem`: succeeds exactly where lopdf loads the bytes.
#[verifier::external_body]
fn load_pdf(content: &[u8]) -> (r: Option<Document>)
    ensures
        r is Some <==> pdf_loads(content@),
        r matches Some(d) ==> pdf_source(d) == content@,
{
    Document::load_mem(content).ok()
}

/// The document's `version` field (from the file header).
#[verifier::external_body]
fn pdf_version(doc: &Document) -> (r: String)
    ensures
        r@ == pdf_version_text(pdf_source(*doc)),
{
    doc.version.clone()
}

/// `Document::get_pages`, counted.
#[verifier::external_body]
fn pdf_page_count(doc: &Document) -> (r: usize)
    ensures
        r == pdf_page_total(pdf_source(*doc)),
{
    doc.get_pages().len()
}

/// Whether `Dictionary::get` finds `Encrypt` in the trailer.
#[verifier::external_body]
fn pdf_is_encrypted(doc: &Document) -> (r: bool)
    ensures
        r == pdf_encrypted(pdf_source(*doc)),
{
    doc.trailer.get("Encrypt".as_bytes()).is_ok()
}

/// The trailer's `Info` entry, resolved with `Document::dereference`, as a
/// dictionary; under `key` in it, the object decoded by `decode_text_string`.
#[verifier::external_body]
fn pdf_info_entry(doc: &Document, key: &str) -> (r: Option<String>)
    ensures
        opt_text(r) == pdf_info_text(pdf_source(*doc), key@),
{
    let info = doc.trailer.get("Info".as_bytes()).ok()?;
    let dict = doc.dereference(info).ok()?.1.as_dict().ok()?;
    lopdf::decode_text_string(dict.get(key.as_bytes()).ok()?).ok()
}

// ---------------------------------------------------------------------------
// Metadata
// ---------------------------------------------------------------------------

/// An ISO 8601 date from an information-dictionary date, where it reads as one.
pub open spec fn info_date(t: Option<Seq<char>>) -> Option<Seq<char>> {
    match t {
        Some(s) => spec_format_pdf_date(encode_utf8(s)),
        None => None,
    }
}

/// Metadata of a PDF: only the size where lopdf does not load it; otherwise the
/// version, page count, encryption flag and information-dictionary texts, dates
/// turned into ISO 8601.
pub open spec fn spec_pdf_metadata(content: Seq<u8>, byte_count: usize) -> PdfView {
    if !pdf_loads(content) {
        PdfView {
            file_size: Some(byte_count),
            pdf_version: None,
            page_count: None,
            is_encrypted: None,
            title: None,
            author: None,
            subject: None,
            creator: None,
            producer: None,
            creation_date: None,
            modification_date: None,
        }
    } else {
        PdfView {
            file_size: Some(byte_count),
            pdf_version: Some(pdf_version_text(content)),
            page_count: Some(pdf_page_total(content)),
            is_encrypted: Some(pdf_encrypted(content)),
            title: pdf_info_text(content, "Title"@),
            author: pdf_info_text(content, "Author"@),
            subject: pdf_info_text(content, "Subject"@),
            creator: pdf_info_text(content, "Creator"@),
            producer: pdf_info_text(content, "Producer"@),
            creation_date: info_date(pdf_info_text(content, "CreationDate"@)),
            modification_date: info_date(pdf_info_text(content, "ModDate"@)),
        }
    }
}

/// An information-dictionary date in ISO 8601.
fn info_date_of(doc: &Document, key: &str) -> (r: Option<String>)
    ensures
        opt_text(r) == info_date(pdf_info_text(pdf_source(*doc), key@)),
{
    match pdf_info_entry(doc, key) {
        Some(t) => format_pdf_date(t.as_str()),
        None => None,
    }
}

/// Extracts the metadata of a PDF file; never fails (a file lopdf cannot load
/// gets its size only).
pub fn extract_pdf_metadata(content: &[u8], byte_count: usize) -> (r: Result<PdfMetadata, String>)
    ensures
        r matches Ok(m) && m@ == spec_pdf_metadata(content@, byte_count),
{
    let mut metadata = PdfMetadata {
        file_size: Some(byte_count),
        pdf_version: None,
        page_count: None,
        is_encrypted: None,
        title: None,
        author: None,
        subject: None,
        creator: None,
        producer: None,
        creation_date: None,
        modification_date: None,
    };
    let doc = match load_pdf(content) {
        Some(d) => d,
        None => return Ok(metadata),
    };
    metadata.pdf_version = Some(pdf_version(&doc));
    metadata.page_count = Some(pdf_page_count(&doc));
    metadata.is_encrypted = Some(pdf_is_encrypted(&doc));
    metadata.title = pdf_info_entry(&doc, "Title");
    metadata.author = pdf_info_entry(&doc, "Author");
    metadata.subject = pdf_info_entry(&doc, "Subject");
    metadata.creator = pdf_info_entry(&doc, "Creator");
    metadata.producer = pdf_info_entry(&doc, "Producer");
    metadata.creation_date = info_date_of(&doc, "CreationDate");
    metadata.modification_date = info_date_of(&doc, "ModDate");
    Ok(metadata)
}

} // verus!
