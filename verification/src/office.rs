//! Office Open XML documents (DOCX, PPTX, XLSX): ZIP members read as XML event
//! streams, core properties, body text statistics, slide and sheet counts.

use vstd::prelude::*;
use vstd::utf8::{encode_utf8, is_ascii_chars, is_ascii_chars_encode_utf8};
use std::io::Cursor;
use std::io::Read;
use zip::ZipArchive;

use crate::npy::lemma_digits_value_prefix_bound;
use crate::results::{empty_mining_result, MiningCounts, DocMetaView, DocumentMetadata, PptxMetadata, PptxView, SheetSize, sheet_sizes_view};
use crate::text::{
    all_digits, append_chars, char_is_space, chars_of, digits_value, has_infix, has_suffix,
    is_digit, is_space, occurs_at, string_of, trim, trim_chars,
};
use crate::csv::same_chars;
use crate::pickle::strings_view;
use crate::xml::{XmlEv, XmlEvent, decode_xml_entities, events_view, spec_decode_entities, xml_event_list, xml_events};

verus! {

// ---------------------------------------------------------------------------
// ZIP members
// ---------------------------------------------------------------------------

#[verifier::external_type_specification]
#[verifier::external_body]
#[verifier::reject_recursive_types(R)]
pub struct ExZipArchive<R>(ZipArchive<R>);

#[verifier::external_type_specification]
#[verifier::external_body]
#[verifier::reject_recursive_types(T)]
pub struct ExCursor<T>(Cursor<T>);

/// Whether the zip crate reads `content` as an archive.
pub uninterp spec fn zip_opens(content: Seq<u8>) -> bool;

/// The bytes an open archive was read from.
pub uninterp spec fn zip_source(a: ZipArchive<Cursor<&[u8]>>) -> Seq<u8>;

/// The member `path` of the archive in `content` as the zip crate finds it:
/// `None` where there is none, else its text, or `None` inside where reading
/// it fails (not UTF-8, or a decompression or checksum error).
pub uninterp spec fn zip_entry(content: Seq<u8>, path: Seq<char>) -> Option<Option<Seq<char>>>;

/// The text of the member `path` of the archive in `content`, where the member
/// exists and reads as UTF-8.
pub open spec fn zip_member_text(content: Seq<u8>, path: Seq<char>) -> Option<Seq<char>> {
    match zip_entry(content, path) {
        Some(Some(t)) => Some(t),
        _ => None,
    }
}

/// `ZipArchive::new` over the bytes: succeeds exactly where the zip crate reads
/// them as an archive.
#[verifier::external_body]
pub(crate) fn open_zip(content: &[u8]) -> (r: Option<ZipArchive<Cursor<&[u8]>>>)
    ensures
        r is Some <==> zip_opens(content@),
        r matches Some(a) ==> zip_source(a) == content@,
{
    ZipArchive::new(Cursor::new(content)).ok()
}

/// `ZipArchive::by_name` and `read_to_string` on the member: `None` where
/// `by_name` finds no member, else the member's text, or `None` inside where it
/// does not read as UTF-8.
#[verifier::external_body]
pub(crate) fn zip_member_entry(archive: &mut ZipArchive<Cursor<&[u8]>>, path: &str) -> (r: Option<Option<String>>)
    ensures
        zip_source(*final(archive)) == zip_source(*old(archive)),
        match r {
            Some(Some(s)) => zip_entry(zip_source(*old(archive)), path@) == Some(Some(s@)),
            Some(None) => zip_entry(zip_source(*old(archive)), path@) == Some(None::<Seq<char>>),
            None => zip_entry(zip_source(*old(archive)), path@) is None,
        },
{
    let mut file = archive.by_name(path).ok()?;
    let mut text = String::new();
    Some(file.read_to_string(&mut text).ok().map(|_| text))
}

/// The text of a member, where it exists and reads as UTF-8.
pub(crate) fn zip_member(archive: &mut ZipArchive<Cursor<&[u8]>>, path: &str) -> (r: Option<String>)
    ensures
        zip_source(*final(archive)) == zip_source(*old(archive)),
        match r {
            Some(s) => zip_member_text(zip_source(*old(archive)), path@) == Some(s@),
            None => zip_member_text(zip_source(*old(archive)), path@) is None,
        },
{
    match zip_member_entry(archive, path) {
        Some(Some(t)) => Some(t),
        _ => None,
    }
}

/// The text of a member of an Office document, where the document opens as an
/// archive and the member reads as UTF-8.
pub open spec fn office_member(content: Seq<u8>, path: Seq<char>) -> Option<Seq<char>> {
    if zip_opens(content) {
        zip_member_text(content, path)
    } else {
        None
    }
}

// ---------------------------------------------------------------------------
// Names, properties and numbers
// ---------------------------------------------------------------------------

/// `ns` occurs in `name` (a namespace prefix test on qualified names).
pub fn has_namespace(name: &[u8], namespace: &[u8]) -> (b: bool)
    requires
        namespace.len() > 0,
    ensures
        b == has_infix(name@, namespace@),
{
    if namespace.len() > name.len() {
        return false;
    }
    let last = name.len() - namespace.len();
    let mut i: usize = 0;
    while i <= last
        invariant
            last + namespace.len() == name.len(),
            i <= last + 1,
            forall|j: int| 0 <= j < i ==> !occurs_at(name@, namespace@, j),
        decreases last + 1 - i,
    {
        let mut k: usize = 0;
        while k < namespace.len() && name[i + k] == namespace[k]
            invariant
                i <= last,
                last + namespace.len() == name.len(),
                k <= namespace.len(),
                forall|m: int| 0 <= m < k ==> name@[i + m] == namespace@[m],
            decreases namespace.len() - k,
        {
            k = k + 1;
        }
        if k == namespace.len() {
            assert(name@.subrange(i as int, i + namespace@.len()) =~= namespace@);
            assert(occurs_at(name@, namespace@, i as int));
            return true;
        }
        assert(name@.subrange(i as int, i + namespace@.len())[k as int] != namespace@[k as int]);
        i = i + 1;
    }
    assert forall|j: int| !occurs_at(name@, namespace@, j) by {
        if 0 <= j && j < i {
        }
    }
    false
}

/// Whether `p` ends `s`, comparing bytes.
fn bytes_end_with(s: &[u8], p: &[u8]) -> (b: bool)
    ensures
        b == has_suffix(s@, p@),
{
    if p.len() > s.len() {
        return false;
    }
    let off = s.len() - p.len();
    let mut k: usize = 0;
    while k < p.len()
        invariant
            off + p.len() == s.len(),
            k <= p.len(),
            forall|m: int| 0 <= m < k ==> s@[off + m] == p@[m],
        decreases p.len() - k,
    {
        if s[off + k] != p[k] {
            assert(s@.subrange(off as int, s@.len() as int)[k as int] != p@[k as int]);
            return false;
        }
        k = k + 1;
    }
    assert(s@.subrange(off as int, s@.len() as int) =~= p@);
    true
}

/// Which metadata field a core property fills.
#[derive(PartialEq, Eq, Structural, Clone, Copy, Debug)]
pub enum CoreField {
    Title,
    Author,
    Subject,
    Description,
    Created,
    Modified,
    LastModifiedBy,
}

/// A property of `docProps/core.xml`: the end of the element's qualified name,
/// a namespace prefix it carries, and the field it fills.
pub struct CoreProperty {
    pub element: &'static str,
    pub namespace: &'static str,
    pub field: CoreField,
}

/// Model of a property: element and namespace as UTF-8 bytes.
pub open spec fn core_property_view(p: CoreProperty) -> (Seq<u8>, Seq<u8>, CoreField) {
    (encode_utf8(p.element@), encode_utf8(p.namespace@), p.field)
}

/// One row of a property table.
pub open spec fn prop_row(element: Seq<char>, namespace: Seq<char>, f: CoreField) -> (Seq<u8>, Seq<u8>, CoreField) {
    (encode_utf8(element), encode_utf8(namespace), f)
}

/// The core properties of documents and workbooks, in the order they are tried.
pub open spec fn docx_core_table() -> Seq<(Seq<u8>, Seq<u8>, CoreField)> {
    seq![
        prop_row("title"@, "dc"@, CoreField::Title),
        prop_row("creator"@, "dc"@, CoreField::Author),
        prop_row("subject"@, "dc"@, CoreField::Subject),
        prop_row("description"@, "dc"@, CoreField::Description),
        prop_row("created"@, "dcterms"@, CoreField::Created),
        prop_row("modified"@, "dcterms"@, CoreField::Modified),
        prop_row("lastModifiedBy"@, "cp"@, CoreField::LastModifiedBy),
    ]
}

/// The core properties of presentations, in the order they are tried.
pub open spec fn pptx_core_table() -> Seq<(Seq<u8>, Seq<u8>, CoreField)> {
    seq![
        prop_row("title"@, "dc"@, CoreField::Title),
        prop_row("creator"@, "dc"@, CoreField::Author),
        prop_row("created"@, "dcterms"@, CoreField::Created),
        prop_row("modified"@, "dcterms"@, CoreField::Modified),
    ]
}

/// Every namespace of the table is non-empty.
pub open spec fn namespaces_nonempty(t: Seq<(Seq<u8>, Seq<u8>, CoreField)>) -> bool {
    forall|i: int| 0 <= i < t.len() ==> (#[trigger] t[i]).1.len() > 0
}

proof fn lemma_namespaces_nonempty()
    ensures
        namespaces_nonempty(docx_core_table()),
        namespaces_nonempty(pptx_core_table()),
{
    reveal_strlit("dc");
    reveal_strlit("dcterms");
    reveal_strlit("cp");
    is_ascii_chars_encode_utf8("dc"@);
    is_ascii_chars_encode_utf8("dcterms"@);
    is_ascii_chars_encode_utf8("cp"@);
}

/// The properties of documents and workbooks.
pub fn docx_core_properties() -> (t: Vec<CoreProperty>)
    ensures
        t@.map_values(|p: CoreProperty| core_property_view(p)) == docx_core_table(),
{
    let mut t: Vec<CoreProperty> = Vec::new();
    t.push(CoreProperty { element: "title", namespace: "dc", field: CoreField::Title });
    t.push(CoreProperty { element: "creator", namespace: "dc", field: CoreField::Author });
    t.push(CoreProperty { element: "subject", namespace: "dc", field: CoreField::Subject });
    t.push(CoreProperty { element: "description", namespace: "dc", field: CoreField::Description });
    t.push(CoreProperty { element: "created", namespace: "dcterms", field: CoreField::Created });
    t.push(CoreProperty { element: "modified", namespace: "dcterms", field: CoreField::Modified });
    t.push(
        CoreProperty { element: "lastModifiedBy", namespace: "cp", field: CoreField::LastModifiedBy },
    );
    assert(t@.map_values(|p: CoreProperty| core_property_view(p)) =~= docx_core_table());
    t
}

/// The properties of presentations.
pub fn pptx_core_properties() -> (t: Vec<CoreProperty>)
    ensures
        t@.map_values(|p: CoreProperty| core_property_view(p)) == pptx_core_table(),
{
    let mut t: Vec<CoreProperty> = Vec::new();
    t.push(CoreProperty { element: "title", namespace: "dc", field: CoreField::Title });
    t.push(CoreProperty { element: "creator", namespace: "dc", field: CoreField::Author });
    t.push(CoreProperty { element: "created", namespace: "dcterms", field: CoreField::Created });
    t.push(CoreProperty { element: "modified", namespace: "dcterms", field: CoreField::Modified });
    assert(t@.map_values(|p: CoreProperty| core_property_view(p)) =~= pptx_core_table());
    t
}

/// The field of the first property of `t` whose element ends `name` and whose
/// namespace occurs in it.
pub open spec fn first_match(name: Seq<u8>, t: Seq<(Seq<u8>, Seq<u8>, CoreField)>) -> Option<CoreField>
    decreases t.len(),
{
    if t.len() == 0 {
        None
    } else if has_suffix(name, t[0].0) && has_infix(name, t[0].1) {
        Some(t[0].2)
    } else {
        first_match(name, t.drop_first())
    }
}

/// Looks `name` up in a property table.
fn find_core_property(name: &[u8], t: &Vec<CoreProperty>) -> (r: Option<CoreField>)
    requires
        namespaces_nonempty(t@.map_values(|p: CoreProperty| core_property_view(p))),
    ensures
        r == first_match(name@, t@.map_values(|p: CoreProperty| core_property_view(p))),
{
    let ghost tv = t@.map_values(|p: CoreProperty| core_property_view(p));
    let mut i: usize = 0;
    assert(tv.skip(0) =~= tv);
    while i < t.len()
        invariant
            i <= t.len(),
            tv == t@.map_values(|p: CoreProperty| core_property_view(p)),
            namespaces_nonempty(tv),
            first_match(name@, tv) == first_match(name@, tv.skip(i as int)),
        decreases t.len() - i,
    {
        let p = &t[i];
        assert(tv.skip(i as int)[0] == tv[i as int]);
        assert(tv.skip(i as int).drop_first() =~= tv.skip(i + 1));
        assert(tv[i as int].1.len() > 0);
        if bytes_end_with(name, p.element.as_bytes()) && has_namespace(name, p.namespace.as_bytes()) {
            return Some(p.field);
        }
        i = i + 1;
    }
    assert(tv.skip(i as int) =~= Seq::<(Seq<u8>, Seq<u8>, CoreField)>::empty());
    None
}

/// `i64::from_str`: an optional sign, then one or more ASCII digits whose value
/// fits.
pub open spec fn spec_parse_i64(s: Seq<char>) -> Option<i64> {
    let neg = s.len() > 0 && s[0] == '-';
    let d = if s.len() > 0 && (s[0] == '-' || s[0] == '+') {
        s.skip(1)
    } else {
        s
    };
    if d.len() == 0 || !all_digits(d) {
        None
    } else if neg {
        if digits_value(d) <= 0x8000_0000_0000_0000 {
            Some((-(digits_value(d) as int)) as i64)
        } else {
            None
        }
    } else if digits_value(d) <= 0x7fff_ffff_ffff_ffff {
        Some(digits_value(d) as i64)
    } else {
        None
    }
}

/// Parses a signed decimal integer as `i64::from_str` does.
pub fn parse_i64_chars(s: &[char]) -> (r: Option<i64>)
    ensures
        r == spec_parse_i64(s@),
{
    let neg = s.len() > 0 && s[0] == '-';
    let start: usize = if s.len() > 0 && (s[0] == '-' || s[0] == '+') {
        1
    } else {
        0
    };
    let ghost d = s@.skip(start as int);
    assert(d =~= (if s@.len() > 0 && (s@[0] == '-' || s@[0] == '+') {
        s@.skip(1)
    } else {
        s@
    }));
    if start >= s.len() {
        return None;
    }
    let limit: u64 = if neg {
        0x8000_0000_0000_0000
    } else {
        0x7fff_ffff_ffff_ffff
    };
    let mut v: u64 = 0;
    let mut i: usize = start;
    while i < s.len()
        invariant
            start <= i <= s.len(),
            start <= 1,
            d == s@.skip(start as int),
            d == (if s@.len() > 0 && (s@[0] == '-' || s@[0] == '+') {
                s@.skip(1)
            } else {
                s@
            }),
            d.len() > 0,
            limit == (if neg {
                0x8000_0000_0000_0000u64
            } else {
                0x7fff_ffff_ffff_ffffu64
            }),
            neg == (s@.len() > 0 && s@[0] == '-'),
            all_digits(s@.subrange(start as int, i as int)),
            v == digits_value(s@.subrange(start as int, i as int)),
            v <= limit,
        decreases s.len() - i,
    {
        let c = s[i];
        if !(c >= '0' && c <= '9') {
            assert(!all_digits(d)) by {
                assert(d[i - start] == c);
            }
            return None;
        }
        let digit = (c as u32 - 48) as u64;
        let ghost prefix = s@.subrange(start as int, i + 1);
        assert(prefix.drop_last() =~= s@.subrange(start as int, i as int));
        assert(all_digits(prefix));
        assert(digits_value(prefix) == v * 10 + digit);
        if v > (limit - digit) / 10 {
            proof {
                assert(d.subrange(0, i + 1 - start) =~= prefix);
                lemma_digits_value_prefix_bound(d, (i + 1 - start) as int);
                assert(v * 10 + digit > limit);
            }
            return None;
        }
        v = v * 10 + digit;
        i = i + 1;
    }
    assert(s@.subrange(start as int, i as int) =~= d);
    if neg {
        if v == 0x8000_0000_0000_0000 {
            Some(-0x7fff_ffff_ffff_ffff - 1)
        } else {
            Some(-(v as i64))
        }
    } else {
        Some(v as i64)
    }
}

// ---------------------------------------------------------------------------
// Core properties
// ---------------------------------------------------------------------------

/// `m` with the field `f` set to `v`.
pub open spec fn doc_with_field(m: DocMetaView, f: CoreField, v: Seq<char>) -> DocMetaView {
    match f {
        CoreField::Title => DocMetaView { title: Some(v), ..m },
        CoreField::Author => DocMetaView { author: Some(v), ..m },
        CoreField::Subject => DocMetaView { subject: Some(v), ..m },
        CoreField::Description => DocMetaView { description: Some(v), ..m },
        CoreField::Created => DocMetaView { creation_date: Some(v), ..m },
        CoreField::Modified => DocMetaView { modified_date: Some(v), ..m },
        CoreField::LastModifiedBy => DocMetaView { last_modified_by: Some(v), ..m },
    }
}

/// What closing the element `name` with text `text` does to document metadata:
/// the first matching property takes the trimmed text where it is not empty; a
/// `cp` revision takes the text as a signed integer where it parses.
pub open spec fn doc_core_update(name: Seq<u8>, text: Seq<char>, m: DocMetaView) -> DocMetaView {
    match first_match(name, docx_core_table()) {
        Some(f) => if trim(text).len() > 0 {
            doc_with_field(m, f, trim(text))
        } else {
            m
        },
        None => if has_suffix(name, encode_utf8("revision"@)) && has_infix(name, encode_utf8("cp"@)) {
            match spec_parse_i64(trim(text)) {
                Some(r) => DocMetaView { revision: Some(r), ..m },
                None => m,
            }
        } else {
            m
        },
    }
}

/// Fills the document field named by `f`.
fn set_doc_field(m: &mut DocumentMetadata, f: CoreField, v: String)
    ensures
        final(m)@ == doc_with_field(old(m)@, f, v@),
{
    match f {
        CoreField::Title => m.title = Some(v),
        CoreField::Author => m.author = Some(v),
        CoreField::Subject => m.subject = Some(v),
        CoreField::Description => m.description = Some(v),
        CoreField::Created => m.creation_date = Some(v),
        CoreField::Modified => m.modified_date = Some(v),
        CoreField::LastModifiedBy => m.last_modified_by = Some(v),
    }
}

/// Applies one closed core-property element of a document or workbook.
pub fn process_core_property(name: &[u8], text_content: &str, metadata: &mut DocumentMetadata)
    ensures
        final(metadata)@ == doc_core_update(name@, text_content@, old(metadata)@),
{
    let table = docx_core_properties();
    proof {
        lemma_namespaces_nonempty();
    }
    let v = trim_chars(chars_of(text_content).as_slice());
    match find_core_property(name, &table) {
        Some(f) => {
            if v.len() > 0 {
                set_doc_field(metadata, f, string_of(v.as_slice()));
            }
        },
        None => {
            proof {
                reveal_strlit("cp");
                is_ascii_chars_encode_utf8("cp"@);
            }
            if bytes_end_with(name, "revision".as_bytes()) && has_namespace(name, "cp".as_bytes()) {
                if let Some(rev) = parse_i64_chars(v.as_slice()) {
                    metadata.revision = Some(rev);
                }
            }
        },
    }
}

/// State of a core-properties walk: metadata so far, the text of the open
/// element, and whether an element is open.
pub struct CoreScan<M> {
    pub meta: M,
    pub text: Seq<char>,
    pub open: bool,
}

/// One event of a document or workbook core-properties walk.
pub open spec fn doc_core_step(st: CoreScan<DocMetaView>, e: XmlEv) -> CoreScan<DocMetaView> {
    match e {
        XmlEv::Start(_, _, _) => CoreScan { meta: st.meta, text: Seq::empty(), open: true },
        XmlEv::Text(t) => if st.open {
            CoreScan { meta: st.meta, text: st.text + t, open: true }
        } else {
            st
        },
        XmlEv::End(n) => CoreScan {
            meta: doc_core_update(encode_utf8(n), st.text, st.meta),
            text: Seq::empty(),
            open: false,
        },
        _ => st,
    }
}

/// The walk over a run of events.
pub open spec fn doc_core_fold(evs: Seq<XmlEv>, st: CoreScan<DocMetaView>) -> CoreScan<DocMetaView>
    decreases evs.len(),
{
    if evs.len() == 0 {
        st
    } else {
        doc_core_step(doc_core_fold(evs.drop_last(), st), evs.last())
    }
}

/// Document metadata after the core properties of `xml`.
pub open spec fn doc_core_scan(xml: Seq<char>, m: DocMetaView) -> DocMetaView {
    doc_core_fold(xml_event_list(xml), CoreScan { meta: m, text: Seq::empty(), open: false }).meta
}

/// Reads the core properties (`docProps/core.xml`) of a document or workbook.
pub fn extract_core_properties(xml: &str, metadata: &mut DocumentMetadata)
    ensures
        final(metadata)@ == doc_core_scan(xml@, old(metadata)@),
{
    let evs = xml_events(xml);
    let ghost ev = events_view(evs@);
    let ghost init = CoreScan { meta: metadata@, text: Seq::<char>::empty(), open: false };
    let mut text: Vec<char> = Vec::new();
    let mut open = false;
    let mut i: usize = 0;
    while i < evs.len()
        invariant
            i <= evs.len(),
            ev == events_view(evs@),
            ev == xml_event_list(xml@),
            init.meta == old(metadata)@,
            init.text.len() == 0,
            !init.open,
            doc_core_fold(ev.take(i as int), init) == (CoreScan {
                meta: metadata@,
                text: text@,
                open,
            }),
        decreases evs.len() - i,
    {
        assert(ev.take(i + 1).drop_last() =~= ev.take(i as int));
        assert(ev[i as int] == evs@[i as int]@);
        match &evs[i] {
            XmlEvent::Tag(_, _, _, false) => {
                text = Vec::new();
                open = true;
            },
            XmlEvent::Text(t) => {
                if open {
                    append_chars(&mut text, chars_of(t.as_str()).as_slice());
                }
            },
            XmlEvent::End(name) => {
                process_core_property(name.as_str().as_bytes(), &string_of(text.as_slice()), metadata);
                text = Vec::new();
                open = false;
            },
            _ => {},
        }
        assert(text@ == doc_core_fold(ev.take(i + 1), init).text);
        i = i + 1;
    }
    assert(ev.take(i as int) =~= ev);
}

// ---------------------------------------------------------------------------
// Presentation core properties and slides
// ---------------------------------------------------------------------------

/// `m` with the presentation field `f` set to `v`.
pub open spec fn pptx_with_field(m: PptxView, f: CoreField, v: Seq<char>) -> PptxView {
    match f {
        CoreField::Title => PptxView { title: Some(v), ..m },
        CoreField::Author => PptxView { author: Some(v), ..m },
        CoreField::Created => PptxView { creation_date: Some(v), ..m },
        CoreField::Modified => PptxView { modification_date: Some(v), ..m },
        _ => m,
    }
}

/// What closing the element `name` with text `text` does to presentation
/// metadata.
pub open spec fn pptx_core_update(name: Seq<u8>, text: Seq<char>, m: PptxView) -> PptxView {
    match first_match(name, pptx_core_table()) {
        Some(f) => if trim(text).len() > 0 {
            pptx_with_field(m, f, trim(text))
        } else {
            m
        },
        None => m,
    }
}

/// One event of a presentation core-properties walk.
pub open spec fn pptx_core_step(st: CoreScan<PptxView>, e: XmlEv) -> CoreScan<PptxView> {
    match e {
        XmlEv::Start(_, _, _) => CoreScan { meta: st.meta, text: Seq::empty(), open: true },
        XmlEv::Text(t) => if st.open {
            CoreScan { meta: st.meta, text: st.text + t, open: true }
        } else {
            st
        },
        XmlEv::End(n) => CoreScan {
            meta: pptx_core_update(encode_utf8(n), st.text, st.meta),
            text: Seq::empty(),
            open: false,
        },
        _ => st,
    }
}

/// The walk over a run of events.
pub open spec fn pptx_core_fold(evs: Seq<XmlEv>, st: CoreScan<PptxView>) -> CoreScan<PptxView>
    decreases evs.len(),
{
    if evs.len() == 0 {
        st
    } else {
        pptx_core_step(pptx_core_fold(evs.drop_last(), st), evs.last())
    }
}

/// Presentation metadata after the core properties of `xml`.
pub open spec fn pptx_core_scan(xml: Seq<char>, m: PptxView) -> PptxView {
    pptx_core_fold(xml_event_list(xml), CoreScan { meta: m, text: Seq::empty(), open: false }).meta
}

/// Fills the presentation field named by `f`.
fn set_pptx_field(m: &mut PptxMetadata, f: CoreField, v: String)
    ensures
        final(m)@ == pptx_with_field(old(m)@, f, v@),
{
    match f {
        CoreField::Title => m.title = Some(v),
        CoreField::Author => m.author = Some(v),
        CoreField::Created => m.creation_date = Some(v),
        CoreField::Modified => m.modification_date = Some(v),
        _ => {},
    }
}

/// Reads the core properties (`docProps/core.xml`) of a presentation.
pub fn extract_pptx_core_properties(xml: &str, metadata: &mut PptxMetadata)
    ensures
        final(metadata)@ == pptx_core_scan(xml@, old(metadata)@),
{
    let table = pptx_core_properties();
    proof {
        lemma_namespaces_nonempty();
    }
    let evs = xml_events(xml);
    let ghost ev = events_view(evs@);
    let ghost init = CoreScan { meta: metadata@, text: Seq::<char>::empty(), open: false };
    let mut text: Vec<char> = Vec::new();
    let mut open = false;
    let mut i: usize = 0;
    while i < evs.len()
        invariant
            i <= evs.len(),
            ev == events_view(evs@),
            ev == xml_event_list(xml@),
            init.meta == old(metadata)@,
            init.text.len() == 0,
            !init.open,
            table@.map_values(|p: CoreProperty| core_property_view(p)) == pptx_core_table(),
            namespaces_nonempty(pptx_core_table()),
            pptx_core_fold(ev.take(i as int), init) == (CoreScan {
                meta: metadata@,
                text: text@,
                open,
            }),
        decreases evs.len() - i,
    {
        assert(ev.take(i + 1).drop_last() =~= ev.take(i as int));
        assert(ev[i as int] == evs@[i as int]@);
        match &evs[i] {
            XmlEvent::Tag(_, _, _, false) => {
                text = Vec::new();
                open = true;
            },
            XmlEvent::Text(t) => {
                if open {
                    append_chars(&mut text, chars_of(t.as_str()).as_slice());
                }
            },
            XmlEvent::End(name) => {
                let v = trim_chars(text.as_slice());
                if let Some(f) = find_core_property(name.as_str().as_bytes(), &table) {
                    if v.len() > 0 {
                        set_pptx_field(metadata, f, string_of(v.as_slice()));
                    }
                }
                text = Vec::new();
                open = false;
            },
            _ => {},
        }
        assert(text@ == pptx_core_fold(ev.take(i + 1), init).text);
        i = i + 1;
    }
    assert(ev.take(i as int) =~= ev);
}

// ---------------------------------------------------------------------------
// Document body text
// ---------------------------------------------------------------------------

/// State of a body walk: text gathered from `w:t` runs, whether a run is open,
/// and paragraphs closed.
pub struct TextScan {
    pub text: Seq<char>,
    pub in_run: bool,
    pub paragraphs: nat,
}

/// One event of a body walk: `w:t` opens a run (an empty `w:t` too), text in a
/// run is decoded and kept, `</w:t>` closes it, `</w:p>` ends a line.
pub open spec fn body_step(st: TextScan, e: XmlEv) -> TextScan {
    match e {
        XmlEv::Start(n, _, _) => if n == "w:t"@ {
            TextScan { in_run: true, ..st }
        } else {
            st
        },
        XmlEv::Empty(n, _, _) => if n == "w:t"@ {
            TextScan { in_run: true, ..st }
        } else {
            st
        },
        XmlEv::Text(t) => if st.in_run {
            TextScan { text: st.text + spec_decode_entities(t), ..st }
        } else {
            st
        },
        XmlEv::End(n) => if n == "w:t"@ {
            TextScan { in_run: false, ..st }
        } else if n == "w:p"@ {
            TextScan { text: st.text.push('\n'), paragraphs: st.paragraphs + 1, ..st }
        } else {
            st
        },
        _ => st,
    }
}

/// The walk over a run of events.
pub open spec fn body_fold(evs: Seq<XmlEv>) -> TextScan
    decreases evs.len(),
{
    if evs.len() == 0 {
        TextScan { text: Seq::empty(), in_run: false, paragraphs: 0 }
    } else {
        body_step(body_fold(evs.drop_last()), evs.last())
    }
}

/// Number of whitespace-separated words (`split_whitespace().count()`).
pub open spec fn word_count(s: Seq<char>) -> nat
    decreases s.len(),
{
    if s.len() == 0 {
        0
    } else {
        word_count(s.drop_last()) + (if !is_space(s.last()) && (s.len() == 1 || is_space(
            s[s.len() - 2],
        )) {
            1nat
        } else {
            0nat
        })
    }
}

/// Number of non-whitespace characters.
pub open spec fn nonspace_count(s: Seq<char>) -> nat
    decreases s.len(),
{
    if s.len() == 0 {
        0
    } else {
        nonspace_count(s.drop_last()) + (if !is_space(s.last()) {
            1nat
        } else {
            0nat
        })
    }
}

/// Words and non-whitespace characters of `s`.
fn text_counts(s: &[char]) -> (r: (usize, usize))
    ensures
        r.0 == word_count(s@),
        r.1 == nonspace_count(s@),
{
    let mut words: usize = 0;
    let mut chars: usize = 0;
    let mut prev_space = true;
    let mut i: usize = 0;
    while i < s.len()
        invariant
            i <= s.len(),
            words <= i,
            chars <= i,
            words == word_count(s@.take(i as int)),
            chars == nonspace_count(s@.take(i as int)),
            prev_space == (i == 0 || is_space(s@[i - 1])),
        decreases s.len() - i,
    {
        assert(s@.take(i + 1).drop_last() =~= s@.take(i as int));
        let sp = char_is_space(s[i]);
        if !sp {
            chars = chars + 1;
            if prev_space {
                words = words + 1;
            }
        }
        prev_space = sp;
        i = i + 1;
    }
    assert(s@.take(i as int) =~= s@);
    (words, chars)
}

/// Text, paragraphs and counts of the body `xml` (`word/document.xml`).
pub open spec fn body_scan(xml: Seq<char>) -> TextScan {
    body_fold(xml_event_list(xml))
}

/// Walks the body `xml`; returns the text and the number of paragraphs.
fn extract_text_from_document_xml(xml: &str) -> (r: (Vec<char>, usize))
    ensures
        r.0@ == body_scan(xml@).text,
        r.1 == body_scan(xml@).paragraphs,
{
    proof {
        reveal_strlit("w:t");
        reveal_strlit("w:p");
    }
    let run_tag = chars_of("w:t");
    let para_tag = chars_of("w:p");
    let evs = xml_events(xml);
    let ghost ev = events_view(evs@);
    let mut text: Vec<char> = Vec::new();
    let mut in_run = false;
    let mut paragraphs: usize = 0;
    let mut i: usize = 0;
    while i < evs.len()
        invariant
            i <= evs.len(),
            ev == events_view(evs@),
            ev == xml_event_list(xml@),
            run_tag@ == "w:t"@,
            para_tag@ == "w:p"@,
            paragraphs <= i,
            body_fold(ev.take(i as int)) == (TextScan {
                text: text@,
                in_run,
                paragraphs: paragraphs as nat,
            }),
        decreases evs.len() - i,
    {
        assert(ev.take(i + 1).drop_last() =~= ev.take(i as int));
        assert(ev[i as int] == evs@[i as int]@);
        match &evs[i] {
            XmlEvent::Tag(name, _, _, false) => {
                if same_chars(chars_of(name.as_str()).as_slice(), run_tag.as_slice()) {
                    in_run = true;
                }
            },
            XmlEvent::Tag(name, _, _, true) => {
                if same_chars(chars_of(name.as_str()).as_slice(), run_tag.as_slice()) {
                    in_run = true;
                }
            },
            XmlEvent::Text(t) => {
                if in_run {
                    let d = decode_xml_entities(t.as_str());
                    append_chars(&mut text, chars_of(d.as_str()).as_slice());
                }
            },
            XmlEvent::End(name) => {
                let n = chars_of(name.as_str());
                if same_chars(n.as_slice(), run_tag.as_slice()) {
                    in_run = false;
                } else if same_chars(n.as_slice(), para_tag.as_slice()) {
                    text.push('\n');
                    paragraphs = paragraphs + 1;
                }
            },
            _ => {},
        }
        assert(text@ == body_fold(ev.take(i + 1)).text);
        i = i + 1;
    }
    assert(ev.take(i as int) =~= ev);
    (text, paragraphs)
}

/// Number of tags (start or empty) whose name ends with `sldId`.
pub open spec fn slide_count(evs: Seq<XmlEv>) -> nat
    decreases evs.len(),
{
    if evs.len() == 0 {
        0
    } else {
        slide_count(evs.drop_last()) + (match evs.last() {
            XmlEv::Start(n, _, _) => if has_suffix(encode_utf8(n), encode_utf8("sldId"@)) {
                1nat
            } else {
                0nat
            },
            XmlEv::Empty(n, _, _) => if has_suffix(encode_utf8(n), encode_utf8("sldId"@)) {
                1nat
            } else {
                0nat
            },
            _ => 0nat,
        })
    }
}

/// Counts the slide identifiers of `ppt/presentation.xml`.
fn count_sld_id_elements(xml: &str) -> (n: usize)
    ensures
        n == slide_count(xml_event_list(xml@)),
{
    let evs = xml_events(xml);
    let ghost ev = events_view(evs@);
    let mut n: usize = 0;
    let mut i: usize = 0;
    while i < evs.len()
        invariant
            i <= evs.len(),
            ev == events_view(evs@),
            ev == xml_event_list(xml@),
            n <= i,
            n == slide_count(ev.take(i as int)),
        decreases evs.len() - i,
    {
        assert(ev.take(i + 1).drop_last() =~= ev.take(i as int));
        assert(ev[i as int] == evs@[i as int]@);
        match &evs[i] {
            XmlEvent::Tag(name, _, _, false) => {
                if bytes_end_with(name.as_str().as_bytes(), "sldId".as_bytes()) {
                    n = n + 1;
                }
            },
            XmlEvent::Tag(name, _, _, true) => {
                if bytes_end_with(name.as_str().as_bytes(), "sldId".as_bytes()) {
                    n = n + 1;
                }
            },
            _ => {},
        }
        i = i + 1;
    }
    assert(ev.take(i as int) =~= ev);
    n
}

// ---------------------------------------------------------------------------
// Workbook sheets
// ---------------------------------------------------------------------------

/// State of an `app.xml` walk: sheet titles found, text of the open title, and
/// whether a title is open.
pub struct TitleScan {
    pub found: nat,
    pub text: Seq<char>,
    pub open: bool,
}

/// Whether a qualified name ends with `lpstr`.
pub open spec fn is_lpstr(n: Seq<char>) -> bool {
    has_suffix(encode_utf8(n), encode_utf8("lpstr"@))
}

/// One event of an `app.xml` walk: `lpstr` elements with non-blank text are
/// sheet titles.
pub open spec fn title_step(st: TitleScan, e: XmlEv) -> TitleScan {
    match e {
        XmlEv::Start(n, _, _) => if is_lpstr(n) {
            TitleScan { text: Seq::empty(), open: true, ..st }
        } else {
            st
        },
        XmlEv::Text(t) => if st.open {
            TitleScan { text: st.text + t, ..st }
        } else {
            st
        },
        XmlEv::End(n) => if is_lpstr(n) && st.open {
            TitleScan {
                found: if trim(st.text).len() > 0 {
                    st.found + 1
                } else {
                    st.found
                },
                text: Seq::empty(),
                open: false,
            }
        } else {
            st
        },
        _ => st,
    }
}

/// The walk over a run of events.
pub open spec fn title_fold(evs: Seq<XmlEv>) -> TitleScan
    decreases evs.len(),
{
    if evs.len() == 0 {
        TitleScan { found: 0, text: Seq::empty(), open: false }
    } else {
        title_step(title_fold(evs.drop_last()), evs.last())
    }
}

/// `m` with the sheet count set to `n` where `n` is positive (and fits a
/// `usize`, as any count of things held in memory does).
pub open spec fn with_sheet_count(m: DocMetaView, n: nat) -> DocMetaView {
    if 0 < n <= usize::MAX {
        DocMetaView { sheet_count: Some(n as usize), ..m }
    } else {
        m
    }
}

/// Counts the sheet titles of `docProps/app.xml` into the sheet count.
fn extract_app_properties(xml: &str, metadata: &mut DocumentMetadata)
    ensures
        final(metadata)@ == with_sheet_count(old(metadata)@, title_fold(xml_event_list(xml@)).found),
{
    let evs = xml_events(xml);
    let ghost ev = events_view(evs@);
    let mut found: usize = 0;
    let mut text: Vec<char> = Vec::new();
    let mut open = false;
    let mut i: usize = 0;
    while i < evs.len()
        invariant
            i <= evs.len(),
            ev == events_view(evs@),
            ev == xml_event_list(xml@),
            found <= i,
            title_fold(ev.take(i as int)) == (TitleScan { found: found as nat, text: text@, open }),
        decreases evs.len() - i,
    {
        assert(ev.take(i + 1).drop_last() =~= ev.take(i as int));
        assert(ev[i as int] == evs@[i as int]@);
        match &evs[i] {
            XmlEvent::Tag(name, _, _, false) => {
                if bytes_end_with(name.as_str().as_bytes(), "lpstr".as_bytes()) {
                    text = Vec::new();
                    open = true;
                }
            },
            XmlEvent::Text(t) => {
                if open {
                    append_chars(&mut text, chars_of(t.as_str()).as_slice());
                }
            },
            XmlEvent::End(name) => {
                if bytes_end_with(name.as_str().as_bytes(), "lpstr".as_bytes()) && open {
                    if trim_chars(text.as_slice()).len() > 0 {
                        found = found + 1;
                    }
                    text = Vec::new();
                    open = false;
                }
            },
            _ => {},
        }
        assert(text@ == title_fold(ev.take(i + 1)).text);
        i = i + 1;
    }
    assert(ev.take(i as int) =~= ev);
    if found > 0 {
        metadata.sheet_count = Some(found);
    }
}

/// Number of attribute keys equal to `name`.
pub open spec fn name_keys(keys: Seq<Seq<char>>) -> nat
    decreases keys.len(),
{
    if keys.len() == 0 {
        0
    } else {
        name_keys(keys.drop_last()) + (if keys.last() == "name"@ {
            1nat
        } else {
            0nat
        })
    }
}

/// `name` attributes of one tag when its name ends with `sheet`.
pub open spec fn sheet_names_in(e: XmlEv) -> nat {
    match e {
        XmlEv::Start(n, k, _) => if has_suffix(encode_utf8(n), encode_utf8("sheet"@)) {
            name_keys(k)
        } else {
            0
        },
        XmlEv::Empty(n, k, _) => if has_suffix(encode_utf8(n), encode_utf8("sheet"@)) {
            name_keys(k)
        } else {
            0
        },
        _ => 0,
    }
}

/// Sheet names declared in a run of events.
pub open spec fn sheet_names_count(evs: Seq<XmlEv>) -> nat
    decreases evs.len(),
{
    if evs.len() == 0 {
        0
    } else {
        sheet_names_count(evs.drop_last()) + sheet_names_in(evs.last())
    }
}

/// Number of `name` keys among `keys`.
fn count_name_keys(keys: &Vec<String>, name_key: &Vec<char>) -> (n: usize)
    requires
        name_key@ == "name"@,
    ensures
        n == name_keys(strings_view(keys@)),
        n <= keys.len(),
{
    let ghost kv = strings_view(keys@);
    let mut n: usize = 0;
    let mut i: usize = 0;
    while i < keys.len()
        invariant
            i <= keys.len(),
            kv == strings_view(keys@),
            name_key@ == "name"@,
            n <= i,
            n == name_keys(kv.take(i as int)),
        decreases keys.len() - i,
    {
        assert(kv.take(i + 1).drop_last() =~= kv.take(i as int));
        if same_chars(chars_of(keys[i].as_str()).as_slice(), name_key.as_slice()) {
            n = n + 1;
        }
        i = i + 1;
    }
    assert(kv.take(i as int) =~= kv);
    n
}

/// Counts the sheets named in `xl/workbook.xml` into the sheet count.
fn extract_sheet_info(xml: &str, metadata: &mut DocumentMetadata)
    ensures
        final(metadata)@ == with_sheet_count(old(metadata)@, sheet_names_count(xml_event_list(xml@))),
{
    proof {
        reveal_strlit("name");
    }
    let name_key = chars_of("name");
    let evs = xml_events(xml);
    let ghost ev = events_view(evs@);
    let mut found: usize = 0;
    let mut i: usize = 0;
    let mut ok = true;
    while i < evs.len()
        invariant
            i <= evs.len(),
            ev == events_view(evs@),
            ev == xml_event_list(xml@),
            name_key@ == "name"@,
            ok ==> found == sheet_names_count(ev.take(i as int)),
            !ok ==> sheet_names_count(ev.take(i as int)) > usize::MAX,
        decreases evs.len() - i,
    {
        assert(ev.take(i + 1).drop_last() =~= ev.take(i as int));
        assert(ev[i as int] == evs@[i as int]@);
        let add = match &evs[i] {
            XmlEvent::Tag(name, attr_keys, _, false) => {
                if bytes_end_with(name.as_str().as_bytes(), "sheet".as_bytes()) {
                    count_name_keys(attr_keys, &name_key)
                } else {
                    0
                }
            },
            XmlEvent::Tag(name, attr_keys, _, true) => {
                if bytes_end_with(name.as_str().as_bytes(), "sheet".as_bytes()) {
                    count_name_keys(attr_keys, &name_key)
                } else {
                    0
                }
            },
            _ => 0,
        };
        assert(add == sheet_names_in(ev[i as int]));
        if ok {
            if found <= usize::MAX - add {
                found = found + add;
            } else {
                ok = false;
            }
        }
        i = i + 1;
    }
    assert(ev.take(i as int) =~= ev);
    if ok {
        if found > 0 {
            metadata.sheet_count = Some(found);
        }
    }
}

// ---------------------------------------------------------------------------
// Documents, presentations, workbooks
// ---------------------------------------------------------------------------

/// Document metadata holding only the file size.
pub open spec fn empty_doc(byte_count: usize) -> DocMetaView {
    DocMetaView {
        file_size: Some(byte_count),
        title: None,
        author: None,
        subject: None,
        description: None,
        creation_date: None,
        modified_date: None,
        last_modified_by: None,
        revision: None,
        word_count: None,
        character_count: None,
        character_count_no_spaces: None,
        paragraph_count: None,
        sheet_count: None,
        sheet_stats: None,
    }
}

fn new_document_metadata(byte_count: usize) -> (m: DocumentMetadata)
    ensures
        m@ == empty_doc(byte_count),
{
    DocumentMetadata {
        file_size: Some(byte_count),
        title: None,
        author: None,
        subject: None,
        description: None,
        creation_date: None,
        modified_date: None,
        last_modified_by: None,
        revision: None,
        word_count: None,
        character_count: None,
        character_count_no_spaces: None,
        paragraph_count: None,
        sheet_count: None,
        sheet_stats: None,
    }
}

/// Metadata of a word-processing document: nothing but the size unless the
/// body `word/document.xml` reads; then its text statistics, and the core
/// properties where `docProps/core.xml` reads.
pub open spec fn spec_docx_metadata(content: Seq<u8>, byte_count: usize) -> DocMetaView {
    match office_member(content, "word/document.xml"@) {
        None => empty_doc(byte_count),
        Some(body) => {
            let t = body_scan(body);
            let m = DocMetaView {
                word_count: Some(word_count(t.text) as usize),
                character_count: Some(t.text.len() as usize),
                character_count_no_spaces: Some(nonspace_count(t.text) as usize),
                paragraph_count: Some(t.paragraphs as usize),
                ..empty_doc(byte_count)
            };
            match office_member(content, "docProps/core.xml"@) {
                Some(core) => doc_core_scan(core, m),
                None => m,
            }
        },
    }
}

/// Extracts the metadata of a DOCX file.
pub fn extract_docx_metadata(content: &[u8], byte_count: usize) -> (m: DocumentMetadata)
    ensures
        m@ == spec_docx_metadata(content@, byte_count),
{
    let mut metadata = new_document_metadata(byte_count);
    let mut archive = match open_zip(content) {
        Some(a) => a,
        None => return metadata,
    };
    let body = match zip_member(&mut archive, "word/document.xml") {
        Some(b) => b,
        None => return metadata,
    };
    let (text, paragraphs) = extract_text_from_document_xml(body.as_str());
    let (words, nonspace) = text_counts(text.as_slice());
    metadata.word_count = Some(words);
    metadata.character_count = Some(text.len());
    metadata.character_count_no_spaces = Some(nonspace);
    metadata.paragraph_count = Some(paragraphs);
    if let Some(core) = zip_member(&mut archive, "docProps/core.xml") {
        extract_core_properties(core.as_str(), &mut metadata);
    }
    metadata
}

/// Presentation metadata holding only the file size.
pub open spec fn empty_pptx(byte_count: usize) -> PptxView {
    PptxView {
        file_size: Some(byte_count),
        title: None,
        author: None,
        creation_date: None,
        modification_date: None,
        slide_count: None,
    }
}

/// Metadata of a presentation: the core properties where `docProps/core.xml`
/// reads, the slide count where `ppt/presentation.xml` reads.
pub open spec fn spec_pptx_metadata(content: Seq<u8>, byte_count: usize) -> PptxView {
    let m = match office_member(content, "docProps/core.xml"@) {
        Some(core) => pptx_core_scan(core, empty_pptx(byte_count)),
        None => empty_pptx(byte_count),
    };
    match office_member(content, "ppt/presentation.xml"@) {
        Some(p) => PptxView { slide_count: Some(slide_count(xml_event_list(p)) as usize), ..m },
        None => m,
    }
}

/// Extracts the metadata of a PPTX file; never fails.
pub fn extract_pptx_metadata(content: &[u8], byte_count: usize) -> (r: Result<PptxMetadata, String>)
    ensures
        r matches Ok(m) && m@ == spec_pptx_metadata(content@, byte_count),
{
    let mut metadata = PptxMetadata {
        file_size: Some(byte_count),
        title: None,
        author: None,
        creation_date: None,
        modification_date: None,
        slide_count: None,
    };
    let mut archive = match open_zip(content) {
        Some(a) => a,
        None => return Ok(metadata),
    };
    if let Some(core) = zip_member(&mut archive, "docProps/core.xml") {
        extract_pptx_core_properties(core.as_str(), &mut metadata);
    }
    if let Some(p) = zip_member(&mut archive, "ppt/presentation.xml") {
        metadata.slide_count = Some(count_sld_id_elements(p.as_str()));
    }
    Ok(metadata)
}

/// Metadata of a workbook: the core properties, then the sheet count from
/// `docProps/app.xml` and from `xl/workbook.xml` (the later one wins), each
/// where it reads; the sheet sizes the spreadsheet reader gave, where there are
/// any. Nothing but the size where the file is no archive.
pub open spec fn spec_xlsx_metadata(
    content: Seq<u8>,
    byte_count: usize,
    sizes: Seq<(Seq<char>, usize, usize)>,
) -> DocMetaView {
    if !zip_opens(content) {
        empty_doc(byte_count)
    } else {
        let m1 = match zip_member_text(content, "docProps/core.xml"@) {
            Some(x) => doc_core_scan(x, empty_doc(byte_count)),
            None => empty_doc(byte_count),
        };
        let m2 = match zip_member_text(content, "docProps/app.xml"@) {
            Some(x) => with_sheet_count(m1, title_fold(xml_event_list(x)).found),
            None => m1,
        };
        let m3 = match zip_member_text(content, "xl/workbook.xml"@) {
            Some(x) => with_sheet_count(m2, sheet_names_count(xml_event_list(x))),
            None => m2,
        };
        DocMetaView {
            sheet_stats: if sizes.len() > 0 {
                Some(sizes)
            } else {
                None
            },
            ..m3
        }
    }
}

/// Extracts the metadata of an XLSX file; `sheet_sizes` are the sizes of the
/// worksheets the spreadsheet reader could read. Never fails.
pub fn extract_xlsx_metadata(content: &[u8], byte_count: usize, sheet_sizes: Vec<SheetSize>) -> (r: Result<DocumentMetadata, String>)
    ensures
        r matches Ok(m) && m@ == spec_xlsx_metadata(
            content@,
            byte_count,
            sheet_sizes_view(sheet_sizes@),
        ),
{
    let mut metadata = new_document_metadata(byte_count);
    let mut archive = match open_zip(content) {
        Some(a) => a,
        None => return Ok(metadata),
    };
    if let Some(x) = zip_member(&mut archive, "docProps/core.xml") {
        extract_core_properties(x.as_str(), &mut metadata);
    }
    if let Some(x) = zip_member(&mut archive, "docProps/app.xml") {
        extract_app_properties(x.as_str(), &mut metadata);
    }
    if let Some(x) = zip_member(&mut archive, "xl/workbook.xml") {
        extract_sheet_info(x.as_str(), &mut metadata);
    }
    metadata.sheet_stats = if sheet_sizes.len() > 0 {
        Some(sheet_sizes)
    } else {
        None
    };
    Ok(metadata)
}

/// Template mining of an XLSX file: spreadsheets yield no templates, only
/// metadata, so the result is empty whatever the bytes; it counts the
/// `token_count` tokens of the input.
pub fn extract_xlsx_templates(content: &[u8], token_count: usize) -> (r: Result<MiningCounts, String>)
    ensures
        r matches Ok(m) && m.templates.len() == 0 && m.original_tokens == token_count
            && m.compressed_tokens == 0,
{
    Ok(empty_mining_result(token_count))
}

// ---------------------------------------------------------------------------
// Laws
// ---------------------------------------------------------------------------

/// Law: a text has no more words than non-whitespace characters, and no more
/// of those than characters.
pub proof fn law_text_counts_ordered(s: Seq<char>)
    ensures
        word_count(s) <= nonspace_count(s),
        nonspace_count(s) <= s.len(),
    decreases s.len(),
{
    if s.len() > 0 {
        law_text_counts_ordered(s.drop_last());
    }
}

/// Number of paragraph end tags (`</w:p>`) among events.
pub open spec fn paragraph_ends(evs: Seq<XmlEv>) -> nat
    decreases evs.len(),
{
    if evs.len() == 0 {
        0
    } else {
        paragraph_ends(evs.drop_last()) + (if evs.last() == XmlEv::End("w:p"@) { 1nat } else { 0nat })
    }
}

/// Law: the paragraph count of a body is the number of `</w:p>` end tags in
/// it, whatever the paragraphs hold (empty ones included).
pub proof fn law_paragraphs_count_end_tags(evs: Seq<XmlEv>)
    ensures
        body_fold(evs).paragraphs == paragraph_ends(evs),
    decreases evs.len(),
{
    reveal_strlit("w:p");
    reveal_strlit("w:t");
    assert("w:p"@ != "w:t"@) by {
        assert("w:p"@[2] != "w:t"@[2]);
    }
    if evs.len() > 0 {
        law_paragraphs_count_end_tags(evs.drop_last());
    }
}

/// Law: a `</w:p>` end tag adds exactly one newline to the text gathered so
/// far and one paragraph, whatever came before it.
pub proof fn law_paragraph_end_adds_one_newline(evs: Seq<XmlEv>)
    ensures
        body_fold(evs.push(XmlEv::End("w:p"@))).text == body_fold(evs).text.push('\n'),
        body_fold(evs.push(XmlEv::End("w:p"@))).paragraphs == body_fold(evs).paragraphs + 1,
        body_fold(evs.push(XmlEv::End("w:p"@))).in_run == body_fold(evs).in_run,
{
    reveal_strlit("w:p");
    reveal_strlit("w:t");
    assert(evs.push(XmlEv::End("w:p"@)).drop_last() =~= evs);
    assert("w:p"@ != "w:t"@) by {
        assert("w:p"@[2] != "w:t"@[2]);
    }
}

/// An event that, as text, brings no newline.
pub open spec fn brings_no_newline(e: XmlEv) -> bool {
    match e {
        XmlEv::Text(t) => crate::text::count_char(spec_decode_entities(t), '\n') == 0,
        _ => true,
    }
}

/// Law: the text of a body holds one newline per `</w:p>` end tag beyond the
/// newlines inside its runs: a body whose runs hold no newline has exactly as
/// many newlines as paragraphs.
pub proof fn law_newlines_count_paragraphs(evs: Seq<XmlEv>)
    requires
        forall|k: int| 0 <= k < evs.len() ==> brings_no_newline(#[trigger] evs[k]),
    ensures
        crate::text::count_char(body_fold(evs).text, '\n') == paragraph_ends(evs),
    decreases evs.len(),
{
    reveal_strlit("w:p");
    reveal_strlit("w:t");
    if evs.len() > 0 {
        let pre = evs.drop_last();
        assert forall|k: int| 0 <= k < pre.len() implies brings_no_newline(#[trigger] pre[k]) by {
            assert(pre[k] == evs[k]);
        }
        law_newlines_count_paragraphs(pre);
        let st = body_fold(pre);
        assert("w:p"@ != "w:t"@) by {
            assert("w:p"@[2] != "w:t"@[2]);
        }
        match evs.last() {
            XmlEv::Text(t) => {
                assert(brings_no_newline(evs[evs.len() - 1]));
                if st.in_run {
                    lemma_count_char_concat(st.text, spec_decode_entities(t), '\n');
                }
            },
            XmlEv::End(n) => {
                if n == "w:p"@ {
                    assert(st.text.push('\n').drop_last() =~= st.text);
                }
            },
            _ => {},
        }
    }
}

proof fn lemma_count_char_concat(a: Seq<char>, b: Seq<char>, c: char)
    ensures
        crate::text::count_char(a + b, c) == crate::text::count_char(a, c) + crate::text::count_char(b, c),
    decreases b.len(),
{
    if b.len() == 0 {
        assert(a + b =~= a);
    } else {
        assert((a + b).drop_last() =~= a + b.drop_last());
        lemma_count_char_concat(a, b.drop_last(), c);
    }
}

/// Law: `<w:t>` (or an empty `<w:t/>`) opens a run and `</w:t>` closes it;
/// a text event adds its decoded text exactly when a run is open, and nothing
/// otherwise.
pub proof fn law_text_kept_inside_runs(evs: Seq<XmlEv>, t: Seq<char>, a: Seq<Seq<char>>, v: Seq<Seq<char>>)
    ensures
        body_fold(evs.push(XmlEv::Start("w:t"@, a, v))).in_run,
        body_fold(evs.push(XmlEv::Empty("w:t"@, a, v))).in_run,
        !body_fold(evs.push(XmlEv::End("w:t"@))).in_run,
        body_fold(evs.push(XmlEv::Text(t))).text == (if body_fold(evs).in_run {
            body_fold(evs).text + spec_decode_entities(t)
        } else {
            body_fold(evs).text
        }),
        body_fold(evs.push(XmlEv::Text(t))).paragraphs == body_fold(evs).paragraphs,
{
    assert(evs.push(XmlEv::Start("w:t"@, a, v)).drop_last() =~= evs);
    assert(evs.push(XmlEv::Empty("w:t"@, a, v)).drop_last() =~= evs);
    assert(evs.push(XmlEv::End("w:t"@)).drop_last() =~= evs);
    assert(evs.push(XmlEv::Text(t)).drop_last() =~= evs);
}

} // verus!
