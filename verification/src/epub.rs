//! EPUB metadata: the package document named by the container (or found at a
//! common path), its Dublin Core title, creator, language and identifier, the
//! reading order of its spine and its manifest; and resolving content documents
//! against the package document.

use vstd::prelude::*;
use std::io::Cursor;
use zip::ZipArchive;

use crate::markdown::line_texts;
use crate::office::{open_zip, zip_entry, zip_member, zip_member_entry, zip_member_text, zip_opens, zip_source};
use crate::pickle::{opt_text, strings_view};
use crate::settings_xml::{local_name, local_name_of};
use crate::sorted_map::{entries_view, map_put, put_entry};
use crate::text::{append_chars, chars_of, string_of, trim, trim_chars};
use crate::xml::{events_view, xml_event_list, xml_events, XmlEv, XmlEvent};

verus! {

/// Length of the directory part of `p`: up to and including its last `/`, or 0.
pub open spec fn dir_len(p: Seq<char>) -> int
    decreases p.len(),
{
    if p.len() == 0 {
        0
    } else if p.last() == '/' {
        p.len() as int
    } else {
        dir_len(p.drop_last())
    }
}

/// The content document `href` in the directory of the package document at
/// `opf_path`.
pub open spec fn spec_content_path(opf_path: Seq<char>, href: Seq<char>) -> Seq<char> {
    opf_path.subrange(0, dir_len(opf_path)) + href
}

/// Resolves a content path (OPF directory plus `href`).
pub fn resolve_content_path(opf_path: &str, href: &str) -> (r: String)
    ensures
        r@ == spec_content_path(opf_path@, href@),
{
    let p = chars_of(opf_path);
    let mut e = p.len();
    assert(p@.subrange(0, e as int) =~= p@);
    while e > 0 && p[e - 1] != '/'
        invariant
            e <= p.len(),
            dir_len(p@) == dir_len(p@.subrange(0, e as int)),
        decreases e,
    {
        assert(p@.subrange(0, e as int).drop_last() =~= p@.subrange(0, e - 1));
        e = e - 1;
    }
    proof {
        if e > 0 {
            assert(p@.subrange(0, e as int).last() == p@[e - 1]);
        }
        assert(dir_len(p@) == e);
    }
    let mut out: Vec<char> = Vec::new();
    let mut k: usize = 0;
    while k < e
        invariant
            k <= e <= p.len(),
            out@ == p@.subrange(0, k as int),
        decreases e - k,
    {
        out.push(p[k]);
        k = k + 1;
        assert(out@ =~= p@.subrange(0, k as int));
    }
    append_chars(&mut out, chars_of(href).as_slice());
    string_of(out.as_slice())
}

// ---------------------------------------------------------------------------
// Attributes
// ---------------------------------------------------------------------------

/// The value of the first attribute named `name`.
pub open spec fn attr_value(keys: Seq<Seq<char>>, values: Seq<Seq<char>>, name: Seq<char>) -> Option<Seq<char>>
    decreases keys.len(),
{
    if keys.len() == 0 || values.len() == 0 {
        None
    } else if keys[0] == name {
        Some(values[0])
    } else {
        attr_value(keys.drop_first(), values.drop_first(), name)
    }
}

/// The value of the first attribute named by the first of `names` that the tag has.
pub open spec fn first_attr_value(keys: Seq<Seq<char>>, values: Seq<Seq<char>>, names: Seq<Seq<char>>) -> Option<Seq<char>>
    decreases names.len(),
{
    if names.len() == 0 {
        None
    } else {
        match attr_value(keys, values, names[0]) {
            Some(v) => Some(v),
            None => first_attr_value(keys, values, names.drop_first()),
        }
    }
}

/// The value of the first attribute named `name`.
fn get_attr_value(keys: &Vec<String>, values: &Vec<String>, name: &str) -> (r: Option<String>)
    ensures
        opt_text(r) == attr_value(strings_view(keys@), strings_view(values@), name@),
{
    let ghost kv = strings_view(keys@);
    let ghost vv = strings_view(values@);
    let target = name.to_string();
    let mut i: usize = 0;
    assert(kv.skip(0) =~= kv);
    assert(vv.skip(0) =~= vv);
    while i < keys.len() && i < values.len()
        invariant
            i <= keys.len(),
            i <= values.len(),
            kv == strings_view(keys@),
            vv == strings_view(values@),
            target@ == name@,
            attr_value(kv, vv, name@) == attr_value(kv.skip(i as int), vv.skip(i as int), name@),
        decreases keys.len() - i,
    {
        assert(kv.skip(i as int)[0] == keys@[i as int]@);
        assert(vv.skip(i as int)[0] == values@[i as int]@);
        if keys[i] == target {
            return Some(values[i].clone());
        }
        assert(kv.skip(i as int).len() > 0 && vv.skip(i as int).len() > 0);
        assert(kv.skip(i as int).drop_first() =~= kv.skip(i + 1));
        assert(vv.skip(i as int).drop_first() =~= vv.skip(i + 1));
        i = i + 1;
    }
    None
}

/// The value of the first attribute named by the first of `names` that the tag
/// has.
pub fn get_first_attr_value(keys: &Vec<String>, values: &Vec<String>, names: &[&str]) -> (r: Option<String>)
    ensures
        opt_text(r) == first_attr_value(strings_view(keys@), strings_view(values@), line_texts(names@)),
{
    let ghost kv = strings_view(keys@);
    let ghost vv = strings_view(values@);
    let ghost ns = line_texts(names@);
    let mut i: usize = 0;
    assert(ns.skip(0) =~= ns);
    while i < names.len()
        invariant
            i <= names.len(),
            kv == strings_view(keys@),
            vv == strings_view(values@),
            ns == line_texts(names@),
            first_attr_value(kv, vv, ns) == first_attr_value(kv, vv, ns.skip(i as int)),
        decreases names.len() - i,
    {
        assert(ns.skip(i as int)[0] == names@[i as int]@);
        if let Some(v) = get_attr_value(keys, values, names[i]) {
            return Some(v);
        }
        assert(ns.skip(i as int).drop_first() =~= ns.skip(i + 1));
        i = i + 1;
    }
    None
}

/// Whether `n` is the text `lit`.
fn is_named(n: &String, lit: &str) -> (r: bool)
    ensures
        r == (n@ == lit@),
{
    *n == lit.to_string()
}

// ---------------------------------------------------------------------------
// Container
// ---------------------------------------------------------------------------

/// The package document a tag names, where it is a `rootfile` tag with a
/// `full-path` (or `full_path`) attribute.
pub open spec fn rootfile_in(e: XmlEv) -> Option<Seq<char>> {
    match e {
        XmlEv::Start(n, k, v) => if local_name(n) == "rootfile"@ {
            first_attr_value(k, v, seq!["full-path"@, "full_path"@])
        } else {
            None
        },
        XmlEv::Empty(n, k, v) => if local_name(n) == "rootfile"@ {
            first_attr_value(k, v, seq!["full-path"@, "full_path"@])
        } else {
            None
        },
        _ => None,
    }
}

/// The first package document the events name.
pub open spec fn container_rootfile(evs: Seq<XmlEv>) -> Option<Seq<char>>
    decreases evs.len(),
{
    if evs.len() == 0 {
        None
    } else {
        match rootfile_in(evs[0]) {
            Some(p) => Some(p),
            None => container_rootfile(evs.drop_first()),
        }
    }
}

/// The path of the package document named in `META-INF/container.xml`.
pub fn parse_container_rootfile(xml: &str) -> (r: Option<String>)
    ensures
        opt_text(r) == container_rootfile(xml_event_list(xml@)),
{
    proof {
        reveal_strlit("rootfile");
        reveal_strlit("full-path");
        reveal_strlit("full_path");
    }
    let evs = xml_events(xml);
    let ghost ev = events_view(evs@);
    let names: [&str; 2] = ["full-path", "full_path"];
    assert(line_texts(names@) =~= seq!["full-path"@, "full_path"@]);
    let mut i: usize = 0;
    assert(ev.skip(0) =~= ev);
    while i < evs.len()
        invariant
            i <= evs.len(),
            ev == events_view(evs@),
            ev == xml_event_list(xml@),
            line_texts(names@) == seq!["full-path"@, "full_path"@],
            container_rootfile(ev) == container_rootfile(ev.skip(i as int)),
        decreases evs.len() - i,
    {
        proof {
            reveal_strlit("rootfile");
        }
        assert(ev.skip(i as int)[0] == evs@[i as int]@);
        assert(ev.skip(i as int).drop_first() =~= ev.skip(i + 1));
        let found = match &evs[i] {
            XmlEvent::Tag(name, keys, values, _) => {
                let local = local_name_of(name.as_str());
                if is_named(&local, "rootfile") {
                    get_first_attr_value(keys, values, names.as_slice())
                } else {
                    None
                }
            },
            _ => None,
        };
        assert(opt_text(found) == rootfile_in(ev[i as int]));
        if found.is_some() {
            return found;
        }
        i = i + 1;
    }
    None
}

// ---------------------------------------------------------------------------
// Package document
// ---------------------------------------------------------------------------

/// Metadata of an EPUB file.
pub struct EpubMetadata {
    pub file_size: Option<usize>,
    pub title: Option<String>,
    pub author: Option<String>,
    pub language: Option<String>,
    pub identifier: Option<String>,
    pub chapter_count: Option<usize>,
}

/// Model of EPUB metadata.
pub struct EpubView {
    pub file_size: Option<usize>,
    pub title: Option<Seq<char>>,
    pub author: Option<Seq<char>>,
    pub language: Option<Seq<char>>,
    pub identifier: Option<Seq<char>>,
    pub chapter_count: Option<usize>,
}

impl View for EpubMetadata {
    type V = EpubView;

    open spec fn view(&self) -> EpubView {
        EpubView {
            file_size: self.file_size,
            title: opt_text(self.title),
            author: opt_text(self.author),
            language: opt_text(self.language),
            identifier: opt_text(self.identifier),
            chapter_count: self.chapter_count,
        }
    }
}

/// State of a walk over the package document's events: inside `<metadata>`,
/// the text since the last tag there, and the fields found.
pub struct OpfScan {
    pub in_meta: bool,
    pub text: Seq<char>,
    pub meta: EpubView,
}

/// The metadata with the field named by the element `local` set to `v`, where
/// that field is still unset (`title`, `creator` for the author, `language`,
/// `identifier`).
pub open spec fn set_field(m: EpubView, local: Seq<char>, v: Seq<char>) -> EpubView {
    if local == "title"@ && m.title is None {
        EpubView { title: Some(v), ..m }
    } else if local == "creator"@ && m.author is None {
        EpubView { author: Some(v), ..m }
    } else if local == "language"@ && m.language is None {
        EpubView { language: Some(v), ..m }
    } else if local == "identifier"@ && m.identifier is None {
        EpubView { identifier: Some(v), ..m }
    } else {
        m
    }
}

/// One event of the package document: a start tag enters `<metadata>` (or
/// stays in it) and clears the text there; an end tag leaves `<metadata>` at
/// its end, and inside it files the trimmed text (if any) under the element's
/// field and clears the text; text inside `<metadata>` is collected.
pub open spec fn opf_step(st: OpfScan, e: XmlEv) -> OpfScan {
    match e {
        XmlEv::Start(n, _, _) => {
            let inside = local_name(n) == "metadata"@ || st.in_meta;
            OpfScan { in_meta: inside, text: if inside { Seq::empty() } else { st.text }, meta: st.meta }
        },
        XmlEv::End(n) => {
            let inside = if local_name(n) == "metadata"@ { false } else { st.in_meta };
            if inside {
                let v = trim(st.text);
                OpfScan {
                    in_meta: true,
                    text: Seq::empty(),
                    meta: if v.len() > 0 { set_field(st.meta, local_name(n), v) } else { st.meta },
                }
            } else {
                OpfScan { in_meta: false, text: st.text, meta: st.meta }
            }
        },
        XmlEv::Text(t) => if st.in_meta {
            OpfScan { in_meta: true, text: st.text + t, meta: st.meta }
        } else {
            st
        },
        _ => st,
    }
}

/// The walk over the events.
pub open spec fn opf_fold(st: OpfScan, evs: Seq<XmlEv>) -> OpfScan
    decreases evs.len(),
{
    if evs.len() == 0 {
        st
    } else {
        opf_step(opf_fold(st, evs.drop_last()), evs.last())
    }
}

/// Reads the title, creator, language and identifier of the package document
/// into the fields of `m` that are still unset.
pub fn extract_metadata_from_opf(xml: &str, m: &mut EpubMetadata)
    ensures
        final(m)@ == opf_fold(OpfScan { in_meta: false, text: Seq::empty(), meta: old(m)@ }, xml_event_list(xml@)).meta,
{
    proof {
        reveal_strlit("metadata");
        reveal_strlit("title");
        reveal_strlit("creator");
        reveal_strlit("language");
        reveal_strlit("identifier");
    }
    let ghost start = OpfScan { in_meta: false, text: Seq::empty(), meta: m@ };
    let evs = xml_events(xml);
    let ghost ev = events_view(evs@);
    let mut in_meta = false;
    let mut text: Vec<char> = Vec::new();
    let mut i: usize = 0;
    while i < evs.len()
        invariant
            i <= evs.len(),
            ev == events_view(evs@),
            ev == xml_event_list(xml@),
            start.in_meta == false,
            start.text == Seq::<char>::empty(),
            start.meta == old(m)@,
            opf_fold(start, ev.take(i as int)) == (OpfScan { in_meta, text: text@, meta: m@ }),
        decreases evs.len() - i,
    {
        proof {
            reveal_strlit("metadata");
            reveal_strlit("title");
            reveal_strlit("creator");
            reveal_strlit("language");
            reveal_strlit("identifier");
        }
        assert(ev.take(i + 1).drop_last() =~= ev.take(i as int));
        assert(ev[i as int] == evs@[i as int]@);
        match &evs[i] {
            XmlEvent::Tag(name, _, _, false) => {
                let local = local_name_of(name.as_str());
                in_meta = is_named(&local, "metadata") || in_meta;
                if in_meta {
                    text = Vec::new();
                }
            },
            XmlEvent::End(name) => {
                let local = local_name_of(name.as_str());
                if is_named(&local, "metadata") {
                    in_meta = false;
                }
                if in_meta {
                    let v = trim_chars(text.as_slice());
                    if v.len() > 0 {
                        let vs = string_of(v.as_slice());
                        if is_named(&local, "title") && m.title.is_none() {
                            m.title = Some(vs);
                        } else if is_named(&local, "creator") && m.author.is_none() {
                            m.author = Some(vs);
                        } else if is_named(&local, "language") && m.language.is_none() {
                            m.language = Some(vs);
                        } else if is_named(&local, "identifier") && m.identifier.is_none() {
                            m.identifier = Some(vs);
                        }
                    }
                    text = Vec::new();
                }
            },
            XmlEvent::Text(t) => {
                if in_meta {
                    append_chars(&mut text, chars_of(t.as_str()).as_slice());
                }
            },
            _ => {},
        }
        i = i + 1;
    }
    assert(ev.take(i as int) =~= ev);
}

// ---------------------------------------------------------------------------
// Spine and manifest
// ---------------------------------------------------------------------------

/// The tag parts of a start or empty tag.
pub open spec fn tag_of(e: XmlEv) -> Option<(Seq<char>, Seq<Seq<char>>, Seq<Seq<char>>)> {
    match e {
        XmlEv::Start(n, k, v) => Some((n, k, v)),
        XmlEv::Empty(n, k, v) => Some((n, k, v)),
        _ => None,
    }
}

/// The reading order the events give from inside `<spine>` on: the `idref` of
/// each `itemref` tag inside `<spine>`; a `spine` tag enters it, its end tag
/// leaves it.
pub open spec fn spine_fold(in_spine: bool, order: Seq<Seq<char>>, evs: Seq<XmlEv>) -> (bool, Seq<Seq<char>>)
    decreases evs.len(),
{
    if evs.len() == 0 {
        (in_spine, order)
    } else {
        let (inside, o) = spine_fold(in_spine, order, evs.drop_last());
        let e = evs.last();
        match tag_of(e) {
            Some((n, k, v)) => if local_name(n) == "spine"@ {
                (true, o)
            } else if inside && local_name(n) == "itemref"@ {
                match attr_value(k, v, "idref"@) {
                    Some(id) => (inside, o.push(id)),
                    None => (inside, o),
                }
            } else {
                (inside, o)
            },
            None => match e {
                XmlEv::End(n) => if local_name(n) == "spine"@ {
                    (false, o)
                } else {
                    (inside, o)
                },
                _ => (inside, o),
            },
        }
    }
}

/// The reading order of a package document: the `idref`s of its spine.
pub open spec fn spine_order(evs: Seq<XmlEv>) -> Seq<Seq<char>> {
    spine_fold(false, Seq::empty(), evs).1
}

/// The spine of the package document: item ids in reading order.
pub fn parse_spine_order_from_opf(xml: &str) -> (r: Vec<String>)
    ensures
        strings_view(r@) == spine_order(xml_event_list(xml@)),
{
    proof {
        reveal_strlit("spine");
        reveal_strlit("itemref");
        reveal_strlit("idref");
    }
    let evs = xml_events(xml);
    let ghost ev = events_view(evs@);
    let mut in_spine = false;
    let mut order: Vec<String> = Vec::new();
    let mut i: usize = 0;
    while i < evs.len()
        invariant
            i <= evs.len(),
            ev == events_view(evs@),
            ev == xml_event_list(xml@),
            spine_fold(false, Seq::empty(), ev.take(i as int)) == (in_spine, strings_view(order@)),
        decreases evs.len() - i,
    {
        proof {
            reveal_strlit("spine");
            reveal_strlit("itemref");
            reveal_strlit("idref");
        }
        assert(ev.take(i + 1).drop_last() =~= ev.take(i as int));
        assert(ev[i as int] == evs@[i as int]@);
        match &evs[i] {
            XmlEvent::Tag(name, keys, values, _) => {
                let local = local_name_of(name.as_str());
                if is_named(&local, "spine") {
                    in_spine = true;
                } else if in_spine && is_named(&local, "itemref") {
                    if let Some(id) = get_attr_value(keys, values, "idref") {
                        let ghost prev = order@;
                        order.push(id);
                        assert(strings_view(order@) =~= strings_view(prev).push(order@.last()@));
                    }
                }
            },
            XmlEvent::End(name) => {
                let local = local_name_of(name.as_str());
                if is_named(&local, "spine") {
                    in_spine = false;
                }
            },
            _ => {},
        }
        i = i + 1;
    }
    assert(ev.take(i as int) =~= ev);
    order
}

/// Number of items in the spine of the package document.
pub fn count_spine_itemrefs(xml: &str) -> (r: usize)
    ensures
        r == spine_order(xml_event_list(xml@)).len(),
{
    let order = parse_spine_order_from_opf(xml);
    assert(strings_view(order@).len() == order@.len());
    order.len()
}

/// The manifest the events give: for each `item` tag with both an `id` and an
/// `href`, the `id` set to the `href` (a later item with the same `id` wins);
/// ids in increasing order.
pub open spec fn manifest_fold(evs: Seq<XmlEv>) -> Seq<(Seq<char>, Seq<char>)>
    decreases evs.len(),
{
    if evs.len() == 0 {
        Seq::empty()
    } else {
        let u = manifest_fold(evs.drop_last());
        match tag_of(evs.last()) {
            Some((n, k, v)) => if local_name(n) == "item"@ {
                match (attr_value(k, v, "id"@), attr_value(k, v, "href"@)) {
                    (Some(id), Some(href)) => map_put(u, id, href),
                    _ => u,
                }
            } else {
                u
            },
            None => u,
        }
    }
}

/// The manifest of the package document: item id to content path.
pub fn parse_manifest_from_opf(xml: &str) -> (r: Vec<(String, String)>)
    ensures
        entries_view(r@) == manifest_fold(xml_event_list(xml@)),
{
    proof {
        reveal_strlit("item");
        reveal_strlit("id");
        reveal_strlit("href");
    }
    let evs = xml_events(xml);
    let ghost ev = events_view(evs@);
    let mut manifest: Vec<(String, String)> = Vec::new();
    let mut i: usize = 0;
    while i < evs.len()
        invariant
            i <= evs.len(),
            ev == events_view(evs@),
            ev == xml_event_list(xml@),
            manifest_fold(ev.take(i as int)) == entries_view(manifest@),
        decreases evs.len() - i,
    {
        proof {
            reveal_strlit("item");
            reveal_strlit("id");
            reveal_strlit("href");
        }
        assert(ev.take(i + 1).drop_last() =~= ev.take(i as int));
        assert(ev[i as int] == evs@[i as int]@);
        if let XmlEvent::Tag(name, keys, values, _) = &evs[i] {
            let local = local_name_of(name.as_str());
            if is_named(&local, "item") {
                let id = get_attr_value(keys, values, "id");
                let href = get_attr_value(keys, values, "href");
                if let (Some(id), Some(href)) = (id, href) {
                    put_entry(&mut manifest, id, href);
                }
            }
        }
        i = i + 1;
    }
    assert(ev.take(i as int) =~= ev);
    manifest
}

// ---------------------------------------------------------------------------
// The archive
// ---------------------------------------------------------------------------

/// The first of the common package document paths (`OEBPS/content.opf`,
/// `content.opf`, `EPUB/package.opf`) that the archive has.
pub open spec fn common_opf_path(content: Seq<u8>) -> Option<Seq<char>> {
    if zip_entry(content, "OEBPS/content.opf"@) is Some {
        Some("OEBPS/content.opf"@)
    } else if zip_entry(content, "content.opf"@) is Some {
        Some("content.opf"@)
    } else if zip_entry(content, "EPUB/package.opf"@) is Some {
        Some("EPUB/package.opf"@)
    } else {
        None
    }
}

/// The package document: the one `META-INF/container.xml` names, else the
/// first common path the archive has.
pub open spec fn epub_opf_path(content: Seq<u8>) -> Option<Seq<char>> {
    match zip_member_text(content, "META-INF/container.xml"@) {
        Some(x) => match container_rootfile(xml_event_list(x)) {
            Some(p) => Some(p),
            None => common_opf_path(content),
        },
        None => common_opf_path(content),
    }
}

/// Metadata with only the file size.
pub open spec fn bare_epub(byte_count: usize) -> EpubView {
    EpubView {
        file_size: Some(byte_count),
        title: None,
        author: None,
        language: None,
        identifier: None,
        chapter_count: None,
    }
}

/// The metadata of an EPUB file: its size; and, where it opens as an archive
/// without `META-INF/encryption.xml` and its package document reads, the
/// document's title, creator, language and identifier and the number of items
/// in its spine.
pub open spec fn spec_epub_metadata(content: Seq<u8>, byte_count: usize) -> EpubView {
    let base = bare_epub(byte_count);
    if !zip_opens(content) || zip_entry(content, "META-INF/encryption.xml"@) is Some {
        base
    } else {
        match epub_opf_path(content) {
            None => base,
            Some(p) => match zip_member_text(content, p) {
                None => base,
                Some(x) => {
                    let evs = xml_event_list(x);
                    EpubView {
                        chapter_count: Some(spine_order(evs).len() as usize),
                        ..opf_fold(OpfScan { in_meta: false, text: Seq::empty(), meta: base }, evs).meta
                    }
                },
            },
        }
    }
}

/// The first common package document path the archive has.
fn try_common_opf_paths(archive: &mut ZipArchive<Cursor<&[u8]>>) -> (r: Option<String>)
    ensures
        zip_source(*final(archive)) == zip_source(*old(archive)),
        opt_text(r) == common_opf_path(zip_source(*old(archive))),
{
    let paths: [&str; 3] = ["OEBPS/content.opf", "content.opf", "EPUB/package.opf"];
    let mut i: usize = 0;
    while i < 3
        invariant
            i <= 3,
            zip_source(*archive) == zip_source(*old(archive)),
            paths@ == seq!["OEBPS/content.opf", "content.opf", "EPUB/package.opf"],
            forall|j: int| 0 <= j < i ==> zip_entry(zip_source(*old(archive)), (#[trigger] paths@[j])@) is None,
        decreases 3 - i,
    {
        if zip_member_entry(archive, paths[i]).is_some() {
            return Some(paths[i].to_string());
        }
        i = i + 1;
    }
    assert(zip_entry(zip_source(*old(archive)), paths@[0]@) is None);
    assert(zip_entry(zip_source(*old(archive)), paths@[1]@) is None);
    assert(zip_entry(zip_source(*old(archive)), paths@[2]@) is None);
    None
}

/// The package document path `META-INF/container.xml` names.
fn read_container_rootfile(archive: &mut ZipArchive<Cursor<&[u8]>>) -> (r: Option<String>)
    ensures
        zip_source(*final(archive)) == zip_source(*old(archive)),
        opt_text(r) == (match zip_member_text(zip_source(*old(archive)), "META-INF/container.xml"@) {
            Some(x) => container_rootfile(xml_event_list(x)),
            None => None,
        }),
{
    match zip_member(archive, "META-INF/container.xml") {
        Some(x) => parse_container_rootfile(x.as_str()),
        None => None,
    }
}

/// Reads the package document at `path` into the metadata: its fields and the
/// number of items in its spine; leaves the metadata as it is where the
/// document does not read.
fn parse_opf(archive: &mut ZipArchive<Cursor<&[u8]>>, path: &str, metadata: EpubMetadata) -> (r: EpubMetadata)
    ensures
        r@ == (match zip_member_text(zip_source(*old(archive)), path@) {
            None => metadata@,
            Some(x) => EpubView {
                chapter_count: Some(spine_order(xml_event_list(x)).len() as usize),
                ..opf_fold(OpfScan { in_meta: false, text: Seq::empty(), meta: metadata@ }, xml_event_list(x)).meta
            },
        }),
{
    let mut m = metadata;
    match zip_member(archive, path) {
        None => m,
        Some(xml) => {
            extract_metadata_from_opf(xml.as_str(), &mut m);
            m.chapter_count = Some(count_spine_itemrefs(xml.as_str()));
            m
        },
    }
}

/// Extracts the metadata of an EPUB file of `byte_count` bytes.
pub fn extract_epub_metadata(content: &[u8], byte_count: usize) -> (r: EpubMetadata)
    ensures
        r@ == spec_epub_metadata(content@, byte_count),
{
    proof {
        reveal_strlit("META-INF/encryption.xml");
        reveal_strlit("META-INF/container.xml");
    }
    let metadata = EpubMetadata {
        file_size: Some(byte_count),
        title: None,
        author: None,
        language: None,
        identifier: None,
        chapter_count: None,
    };
    let mut archive = match open_zip(content) {
        Some(a) => a,
        None => return metadata,
    };
    if zip_member_entry(&mut archive, "META-INF/encryption.xml").is_some() {
        return metadata;
    }
    let opf_path = match read_container_rootfile(&mut archive) {
        Some(p) => p,
        None => match try_common_opf_paths(&mut archive) {
            Some(p) => p,
            None => return metadata,
        },
    };
    parse_opf(&mut archive, opf_path.as_str(), metadata)
}

} // verus!
