//! XML settings files: element, attribute and depth counts, namespace use, and
//! a structural schema in which the attributes and children of elements are
//! kept by local name, and elements met again under one name fold into an
//! array of their merged shape.

use vstd::prelude::*;

use crate::sorted_map::{
    ascending, entries_view, find_entry, find_key, lemma_find_key_from, lemma_get_put, lemma_put_ascending,
    map_get, map_put, put_entry,
};
use crate::text::{
    append_chars, chars_of, has_prefix, string_of, utf8_error_message, utf8_error_text, utf8_str,
};
use crate::xml::{ends_at_terminal, events_view, is_terminal, xml_event_list, xml_events, XmlEv, XmlEvent};
use vstd::utf8::{decode_utf8, valid_utf8};

verus! {

/// The structural type of an element: its attributes (each typed `string`) and
/// its children by local name, or an array of a repeated element's shape.
pub enum XmlTypeInfo {
    Element { attributes: Vec<(String, String)>, children: Vec<(String, XmlTypeInfo)> },
    Array(Box<XmlTypeInfo>),
}

/// Model of a structural type.
pub enum XType {
    Element(Seq<(Seq<char>, Seq<char>)>, Seq<(Seq<char>, XType)>),
    Array(Box<XType>),
}

/// XML file metadata.
pub struct XmlMetadata {
    pub file_size: Option<usize>,
    pub element_count: Option<usize>,
    pub attribute_count: Option<usize>,
    pub max_depth: Option<usize>,
    pub has_namespaces: Option<bool>,
    pub schema: Option<Vec<(String, XmlTypeInfo)>>,
}

/// Model of a structural type.
pub open spec fn type_view(t: XmlTypeInfo) -> XType
    decreases t, 0nat,
{
    match t {
        XmlTypeInfo::Element { attributes, children } => {
            proof {
                assert(decreases_to!(t => children));
                assert(decreases_to!(children => children@));
            }
            XType::Element(entries_view(attributes@), children_view(children@))
        },
        XmlTypeInfo::Array(inner) => XType::Array(Box::new(type_view(*inner))),
    }
}

/// Models of the children of an element.
pub open spec fn children_view(cs: Seq<(String, XmlTypeInfo)>) -> Seq<(Seq<char>, XType)>
    decreases cs, 0nat,
{
    if cs.len() == 0 {
        Seq::empty()
    } else {
        proof {
            assert(decreases_to!(cs => cs.last()));
        }
        children_view(cs.drop_last()).push((cs.last().0@, type_view(cs.last().1)))
    }
}

impl View for XmlTypeInfo {
    type V = XType;

    open spec fn view(&self) -> XType {
        type_view(*self)
    }
}

/// The models of the children are those the map of views gives.
pub proof fn lemma_children_view(cs: Seq<(String, XmlTypeInfo)>)
    ensures
        children_view(cs) == entries_view(cs),
    decreases cs.len(),
{
    if cs.len() > 0 {
        lemma_children_view(cs.drop_last());
        assert(entries_view(cs) =~= entries_view(cs.drop_last()).push((cs.last().0@, cs.last().1@)));
    } else {
        assert(entries_view(cs) =~= Seq::<(Seq<char>, XType)>::empty());
    }
}

// ---------------------------------------------------------------------------
// Merging
// ---------------------------------------------------------------------------

/// The element shape an array holds (anything else is its own shape).
pub open spec fn array_inner(t: XType) -> XType {
    match t {
        XType::Array(inner) => *inner,
        _ => t,
    }
}

/// `into` with `other` merged in: the attributes of both (those of `other` set
/// last) and the children of `other` merged one by one; an array merges its
/// element shape.
pub open spec fn merge_into(into: XType, other: XType) -> XType
    decreases other, 0nat,
{
    match other {
        XType::Array(inner) => merge_into(into, *inner),
        XType::Element(attrs, ch) => match into {
            XType::Element(a, c) => {
                proof {
                    assert(decreases_to!(other => ch));
                }
                XType::Element(put_attrs(a, attrs), merge_children(c, ch))
            },
            XType::Array(_) => into,
        },
    }
}

/// Attributes `attrs` set in order into `a`.
pub open spec fn put_attrs(a: Seq<(Seq<char>, Seq<char>)>, attrs: Seq<(Seq<char>, Seq<char>)>) -> Seq<(Seq<char>, Seq<char>)>
    decreases attrs.len(),
{
    if attrs.len() == 0 {
        a
    } else {
        map_put(put_attrs(a, attrs.drop_last()), attrs.last().0, attrs.last().1)
    }
}

/// Children `ch` merged in order into `c`.
pub open spec fn merge_children(c: Seq<(Seq<char>, XType)>, ch: Seq<(Seq<char>, XType)>) -> Seq<(Seq<char>, XType)>
    decreases ch, 0nat,
{
    if ch.len() == 0 {
        c
    } else {
        proof {
            assert(decreases_to!(ch => ch.last()));
        }
        merge_child_spec(merge_children(c, ch.drop_last()), ch.last().0, ch.last().1)
    }
}

/// A child `v` under name `k` merged into `c`: a new name is set to it; a name
/// met again becomes an array whose element shape has `v` merged in.
pub open spec fn merge_child_spec(c: Seq<(Seq<char>, XType)>, k: Seq<char>, v: XType) -> Seq<(Seq<char>, XType)>
    decreases v, 1nat,
{
    match map_get(c, k) {
        Some(existing) => map_put(c, k, XType::Array(Box::new(merge_into(array_inner(existing), v)))),
        None => map_put(c, k, v),
    }
}

// ---------------------------------------------------------------------------
// The event scan
// ---------------------------------------------------------------------------

/// The local part of a qualified name: after its first `:`, or all of it.
pub open spec fn local_name(n: Seq<char>) -> Seq<char> {
    if exists|i: int| 0 <= i < n.len() && n[i] == ':' {
        let i = choose|i: int| 0 <= i < n.len() && n[i] == ':' && forall|j: int| 0 <= j < i ==> n[j] != ':';
        n.skip(i + 1)
    } else {
        n
    }
}

/// `k` declares a namespace: `xmlns` or `xmlns:...`.
pub open spec fn is_binding(k: Seq<char>) -> bool {
    has_prefix(k, "xmlns"@) && (k.len() == 5 || k[5] == ':')
}

/// The attribute map of a tag: each attribute that declares no namespace,
/// by local name, typed `string`.
pub open spec fn attrs_of(keys: Seq<Seq<char>>) -> Seq<(Seq<char>, Seq<char>)>
    decreases keys.len(),
{
    if keys.len() == 0 {
        Seq::empty()
    } else if is_binding(keys.last()) {
        attrs_of(keys.drop_last())
    } else {
        map_put(attrs_of(keys.drop_last()), local_name(keys.last()), "string"@)
    }
}

/// One of the attribute keys starts with `xmlns`.
pub open spec fn uses_namespaces(keys: Seq<Seq<char>>) -> bool {
    exists|i: int| 0 <= i < keys.len() && has_prefix(#[trigger] keys[i], "xmlns"@)
}

/// The state of the scan.
pub struct XState {
    pub elements: nat,
    pub attributes: nat,
    pub depth: nat,
    pub max_depth: nat,
    pub has_ns: bool,
    pub stack: Seq<(Seq<(Seq<char>, Seq<char>)>, Seq<(Seq<char>, XType)>)>,
    pub schema: Option<Seq<(Seq<char>, XType)>>,
}

/// The larger of two counts.
pub open spec fn larger(a: nat, b: nat) -> nat {
    if a >= b {
        a
    } else {
        b
    }
}

/// The stack with `ty` merged under `name` into the children of its top (an
/// empty stack stays empty).
pub open spec fn merge_into_top(
    stack: Seq<(Seq<(Seq<char>, Seq<char>)>, Seq<(Seq<char>, XType)>)>,
    name: Seq<char>,
    ty: XType,
) -> Seq<(Seq<(Seq<char>, Seq<char>)>, Seq<(Seq<char>, XType)>)> {
    if stack.len() == 0 {
        stack
    } else {
        stack.update(stack.len() - 1, (stack.last().0, merge_child_spec(stack.last().1, name, ty)))
    }
}

/// One event of the scan. A start tag opens an element; an empty tag is a
/// child of the open element; an end tag closes the open element into its
/// parent, or into the schema at the root.
pub open spec fn xml_step(st: XState, e: XmlEv) -> XState {
    match e {
        XmlEv::Start(_, keys, _) => XState {
            elements: st.elements + 1,
            attributes: st.attributes + keys.len(),
            depth: st.depth + 1,
            max_depth: larger(st.max_depth, st.depth + 1),
            has_ns: st.has_ns || uses_namespaces(keys),
            stack: st.stack.push((attrs_of(keys), Seq::empty())),
            schema: st.schema,
        },
        XmlEv::Empty(name, keys, _) => XState {
            elements: st.elements + 1,
            attributes: st.attributes + keys.len(),
            depth: st.depth,
            max_depth: larger(st.max_depth, st.depth + 1),
            has_ns: st.has_ns || uses_namespaces(keys),
            stack: merge_into_top(st.stack, local_name(name), XType::Element(attrs_of(keys), Seq::empty())),
            schema: st.schema,
        },
        XmlEv::End(name) => {
            let depth: nat = if st.depth > 0 {
                (st.depth - 1) as nat
            } else {
                0
            };
            if st.stack.len() == 0 {
                XState { depth, ..st }
            } else {
                let node = st.stack.last();
                let ty = XType::Element(node.0, node.1);
                let rest = st.stack.drop_last();
                if rest.len() > 0 {
                    XState { depth, stack: merge_into_top(rest, local_name(name), ty), ..st }
                } else {
                    XState { depth, stack: rest, schema: Some(seq![(local_name(name), ty)]), ..st }
                }
            }
        },
        _ => st,
    }
}

/// The scan over events in order.
pub open spec fn xml_fold(evs: Seq<XmlEv>) -> XState
    decreases evs.len(),
{
    if evs.len() == 0 {
        XState {
            elements: 0,
            attributes: 0,
            depth: 0,
            max_depth: 0,
            has_ns: false,
            stack: Seq::empty(),
            schema: None,
        }
    } else {
        xml_step(xml_fold(evs.drop_last()), evs.last())
    }
}

/// Model of the metadata the scan gives: counts, namespace use and schema.
pub struct XmlMetaView {
    pub element_count: nat,
    pub attribute_count: nat,
    pub max_depth: nat,
    pub has_namespaces: bool,
    pub schema: Option<Seq<(Seq<char>, XType)>>,
}

/// The metadata of a text, or the error message: the scan of its events up to
/// the end of input; a parse error gives `XML parse error: ...`; more attributes
/// than a count can hold give `XML document too large to count`.
pub open spec fn spec_xml_metadata(text: Seq<char>) -> Result<XmlMetaView, Seq<char>> {
    let evs = xml_event_list(text);
    let st = xml_fold(evs.drop_last());
    if st.attributes > usize::MAX {
        Err("XML document too large to count"@)
    } else {
        match evs.last() {
            XmlEv::Error(m) => Err("XML parse error: "@ + m),
            _ => Ok(
                XmlMetaView {
                    element_count: st.elements,
                    attribute_count: st.attributes,
                    max_depth: st.max_depth,
                    has_namespaces: st.has_ns,
                    schema: st.schema,
                },
            ),
        }
    }
}

// ---------------------------------------------------------------------------
// Executable
// ---------------------------------------------------------------------------

/// The local part of a qualified name.
pub fn local_name_of(n: &str) -> (r: String)
    ensures
        r@ == local_name(n@),
{
    let cs = chars_of(n);
    let mut i: usize = 0;
    while i < cs.len() && cs[i] != ':'
        invariant
            i <= cs.len(),
            cs@ == n@,
            forall|j: int| 0 <= j < i ==> cs@[j] != ':',
        decreases cs.len() - i,
    {
        i = i + 1;
    }
    if i == cs.len() {
        assert(!exists|j: int| 0 <= j < n@.len() && n@[j] == ':');
        return string_of(cs.as_slice());
    }
    proof {
        let w = choose|w: int| 0 <= w < n@.len() && n@[w] == ':' && forall|j: int| 0 <= j < w ==> n@[j] != ':';
        assert(0 <= i < n@.len() && n@[i as int] == ':' && forall|j: int| 0 <= j < i ==> n@[j] != ':');
        assert(w == i) by {
            if w < i {
                assert(cs@[w] != ':');
            } else if w > i {
                assert(n@[i as int] != ':');
            }
        }
    }
    let mut v: Vec<char> = Vec::new();
    let mut k: usize = i + 1;
    while k < cs.len()
        invariant
            i < cs.len(),
            i + 1 <= k <= cs.len(),
            v@ == cs@.subrange(i + 1, k as int),
        decreases cs.len() - k,
    {
        v.push(cs[k]);
        k = k + 1;
        assert(v@ =~= cs@.subrange(i + 1, k as int));
    }
    assert(v@ =~= n@.skip(i + 1));
    string_of(v.as_slice())
}

/// Whether an attribute key declares a namespace.
fn binding_key(cs: &Vec<char>) -> (r: bool)
    ensures
        r == is_binding(cs@),
{
    proof {
        reveal_strlit("xmlns");
    }
    let p = chars_of("xmlns");
    let starts = crate::text::starts_with(cs.as_slice(), p.as_slice());
    starts && (cs.len() == 5 || cs[5] == ':')
}

/// The attribute map of a tag, and whether one of its keys starts with `xmlns`.
pub fn collect_attrs(keys: &Vec<String>) -> (r: (Vec<(String, String)>, bool))
    ensures
        entries_view(r.0@) == attrs_of(crate::pickle::strings_view(keys@)),
        r.1 == uses_namespaces(crate::pickle::strings_view(keys@)),
{
    let ghost ks = crate::pickle::strings_view(keys@);
    proof {
        reveal_strlit("xmlns");
        reveal_strlit("string");
    }
    let prefix = chars_of("xmlns");
    let mut m: Vec<(String, String)> = Vec::new();
    let mut ns = false;
    let mut i: usize = 0;
    while i < keys.len()
        invariant
            i <= keys.len(),
            ks == crate::pickle::strings_view(keys@),
            prefix@ == "xmlns"@,
            entries_view(m@) == attrs_of(ks.take(i as int)),
            ns == uses_namespaces(ks.take(i as int)),
        decreases keys.len() - i,
    {
        let kc = chars_of(keys[i].as_str());
        let starts = crate::text::starts_with(kc.as_slice(), prefix.as_slice());
        proof {
            let t = ks.take(i + 1);
            assert(t.drop_last() =~= ks.take(i as int));
            assert(t.last() == keys@[i as int]@);
            if starts {
                assert(t[i as int] == keys@[i as int]@);
            }
            assert(uses_namespaces(t) == (uses_namespaces(ks.take(i as int)) || starts)) by {
                if uses_namespaces(t) && !starts {
                    let w = choose|w: int| 0 <= w < t.len() && has_prefix(#[trigger] t[w], "xmlns"@);
                    assert(w != i);
                    assert(ks.take(i as int)[w] == t[w]);
                }
                if uses_namespaces(ks.take(i as int)) {
                    let w = choose|w: int| 0 <= w < ks.take(i as int).len() && has_prefix(#[trigger] ks.take(i as int)[w], "xmlns"@);
                    assert(t[w] == ks.take(i as int)[w]);
                }
            }
        }
        ns = ns || starts;
        if !binding_key(&kc) {
            let local = local_name_of(keys[i].as_str());
            put_entry(&mut m, local, "string".to_owned());
        }
        i = i + 1;
    }
    assert(ks.take(i as int) =~= ks);
    (m, ns)
}

/// Merges `other` into the element `into` (`into` with `other`'s attributes
/// set and its children merged in; an array merges its element shape).
pub fn merge_element_into(into: XmlTypeInfo, other: XmlTypeInfo) -> (r: XmlTypeInfo)
    ensures
        r@ == merge_into(into@, other@),
    decreases other, 0nat,
{
    match other {
        XmlTypeInfo::Array(inner) => merge_element_into(into, *inner),
        XmlTypeInfo::Element { attributes: other_attrs, children: other_children } => {
            proof {
                lemma_children_view(other_children@);
            }
            match into {
                XmlTypeInfo::Element { attributes, children } => {
                    let mut attributes = attributes;
                    let mut children = children;
                    proof {
                        lemma_children_view(children@);
                    }
                    put_all_attrs(&mut attributes, other_attrs);
                    merge_children_into(&mut children, other_children);
                    proof {
                        lemma_children_view(children@);
                    }
                    XmlTypeInfo::Element { attributes, children }
                },
                XmlTypeInfo::Array(b) => XmlTypeInfo::Array(b),
            }
        },
    }
}

/// Sets the attributes `attrs`, in order, into `a`.
fn put_all_attrs(a: &mut Vec<(String, String)>, attrs: Vec<(String, String)>)
    ensures
        entries_view(final(a)@) == put_attrs(entries_view(old(a)@), entries_view(attrs@)),
{
    let ghost a0 = entries_view(a@);
    let ghost all = attrs@;
    let mut attrs = attrs;
    let mut i: usize = 0;
    let n = attrs.len();
    while attrs.len() > 0
        invariant
            i + attrs.len() == n,
            n == all.len(),
            attrs@ == all.subrange(i as int, n as int),
            entries_view(a@) == put_attrs(a0, entries_view(all.take(i as int))),
        decreases attrs.len(),
    {
        let (k, v) = attrs.remove(0);
        proof {
            assert(k == all[i as int].0 && v == all[i as int].1);
            assert(entries_view(all.take(i + 1)).drop_last() =~= entries_view(all.take(i as int)));
            assert(entries_view(all.take(i + 1)).last() == (k@, v@));
        }
        put_entry(a, k, v);
        i = i + 1;
        assert(attrs@ =~= all.subrange(i as int, n as int));
    }
    assert(all.take(i as int) =~= all);
}

/// Merges the children `ch`, in order, into `c`.
fn merge_children_into(c: &mut Vec<(String, XmlTypeInfo)>, incoming: Vec<(String, XmlTypeInfo)>)
    ensures
        entries_view(final(c)@) == merge_children(entries_view(old(c)@), entries_view(incoming@)),
    decreases incoming, 0nat,
{
    let ghost c0 = entries_view(c@);
    let ghost ch0 = incoming;
    let ghost all = incoming@;
    proof {
        assert(decreases_to!(ch0 => ch0@));
    }
    let mut ch = incoming;
    let mut i: usize = 0;
    let n = ch.len();
    while ch.len() > 0
        invariant
            i + ch.len() == n,
            n == all.len(),
            all == ch0@,
            ch0 == incoming,
            decreases_to!(ch0 => ch0@),
            ch@ == all.subrange(i as int, n as int),
            entries_view(c@) == merge_children(c0, entries_view(all.take(i as int))),
        decreases ch.len(),
    {
        let (k, v) = ch.remove(0);
        proof {
            assert(k == all[i as int].0 && v == all[i as int].1);
            assert(decreases_to!(ch0@ => ch0@[i as int]));
            assert(decreases_to!(ch0@[i as int] => ch0@[i as int].1));
            assert(decreases_to!(incoming => v));
            assert(entries_view(all.take(i + 1)).drop_last() =~= entries_view(all.take(i as int)));
            assert(entries_view(all.take(i + 1)).last() == (k@, v@));
        }
        merge_child(c, k, v);
        i = i + 1;
        assert(ch@ =~= all.subrange(i as int, n as int));
    }
    assert(all.take(i as int) =~= all);
}

/// Merges a child `value` under name `key` into `children`: a new name is set
/// to it; a name met again becomes an array with `value` merged into its shape.
pub fn merge_child(children: &mut Vec<(String, XmlTypeInfo)>, key: String, value: XmlTypeInfo)
    ensures
        entries_view(final(children)@) == merge_child_spec(entries_view(old(children)@), key@, value@),
    decreases value, 1nat,
{
    let ghost c0 = entries_view(children@);
    let j = find_entry(children, &key);
    proof {
        lemma_find_key_from(c0, key@, 0);
    }
    if j < children.len() {
        let (_k, existing) = children.remove(j);
        proof {
            assert(existing@ == c0[j as int].1);
        }
        let inner = match existing {
            XmlTypeInfo::Array(b) => *b,
            e => e,
        };
        let merged = merge_element_into(inner, value);
        let ghost before = children@;
        children.insert(j, (key, XmlTypeInfo::Array(Box::new(merged))));
        assert(entries_view(children@) =~= c0.update(j as int, (key@, XType::Array(Box::new(merged@)))));
    } else {
        put_entry(children, key, value);
    }
}

/// Models of the open elements: attribute maps and children so far.
pub open spec fn frames_view(
    s: Seq<(Vec<(String, String)>, Vec<(String, XmlTypeInfo)>)>,
) -> Seq<(Seq<(Seq<char>, Seq<char>)>, Seq<(Seq<char>, XType)>)> {
    s.map_values(|f: (Vec<(String, String)>, Vec<(String, XmlTypeInfo)>)| (entries_view(f.0@), entries_view(f.1@)))
}

/// Model of an optional schema.
pub open spec fn schema_view(o: Option<Vec<(String, XmlTypeInfo)>>) -> Option<Seq<(Seq<char>, XType)>> {
    match o {
        Some(v) => Some(entries_view(v@)),
        None => None,
    }
}

proof fn lemma_attrs_monotone(evs: Seq<XmlEv>, k: int)
    requires
        0 <= k <= evs.len(),
    ensures
        xml_fold(evs.take(k)).attributes <= xml_fold(evs).attributes,
    decreases evs.len() - k,
{
    if k < evs.len() {
        lemma_attrs_monotone(evs, k + 1);
        assert(evs.take(k + 1).drop_last() =~= evs.take(k));
    } else {
        assert(evs.take(k) =~= evs);
    }
}

/// Merges `ty` under `name` into the children of the innermost open element.
fn merge_into_open(stack: &mut Vec<(Vec<(String, String)>, Vec<(String, XmlTypeInfo)>)>, name: String, ty: XmlTypeInfo)
    ensures
        frames_view(final(stack)@) == merge_into_top(frames_view(old(stack)@), name@, ty@),
{
    let ghost s0 = frames_view(stack@);
    match stack.pop() {
        Some(top) => {
            let (attrs, mut children) = top;
            merge_child(&mut children, name, ty);
            stack.push((attrs, children));
            assert(frames_view(stack@) =~= s0.update(s0.len() - 1, (s0.last().0, merge_child_spec(s0.last().1, name@, ty@))));
        },
        None => {
            assert(frames_view(stack@) =~= s0);
        },
    }
}

/// Extracts XML metadata by reading the document's events in order: counts of
/// elements and attributes, the deepest nesting, whether namespaces are
/// declared, and the structural schema of the root element.
pub fn extract_xml_metadata(content: &[u8], byte_count: usize) -> (r: Result<XmlMetadata, String>)
    ensures
        !valid_utf8(content@) ==> (r matches Err(e) && e@ == "XML parse error: "@ + utf8_error_text(content@)),
        valid_utf8(content@) ==> match spec_xml_metadata(decode_utf8(content@)) {
            Err(e) => r matches Err(m) && m@ == e,
            Ok(v) => r matches Ok(m) && {
                &&& m.file_size == Some(byte_count)
                &&& m.element_count matches Some(n) && n == v.element_count
                &&& m.attribute_count matches Some(n) && n == v.attribute_count
                &&& m.max_depth matches Some(n) && n == v.max_depth
                &&& m.has_namespaces == Some(v.has_namespaces)
                &&& schema_view(m.schema) == v.schema
            },
        },
{
    proof {
        reveal_strlit("XML parse error: ");
        reveal_strlit("XML document too large to count");
    }
    let text = match utf8_str(content) {
        Some(t) => t,
        None => {
            let mut v = chars_of("XML parse error: ");
            append_chars(&mut v, chars_of(utf8_error_message(content).as_str()).as_slice());
            return Err(string_of(v.as_slice()));
        },
    };
    let evs = xml_events(text);
    let ghost ev = events_view(evs@);
    let mut elements: usize = 0;
    let mut attributes: usize = 0;
    let mut depth: usize = 0;
    let mut max_depth: usize = 0;
    let mut has_ns = false;
    let mut stack: Vec<(Vec<(String, String)>, Vec<(String, XmlTypeInfo)>)> = Vec::new();
    let mut schema: Option<Vec<(String, XmlTypeInfo)>> = None;
    let mut i: usize = 0;
    assert(frames_view(stack@) =~= Seq::<(Seq<(Seq<char>, Seq<char>)>, Seq<(Seq<char>, XType)>)>::empty());
    assert(ev.take(0) =~= Seq::<XmlEv>::empty());
    while i < evs.len()
        invariant
            ev == events_view(evs@),
            ev == xml_event_list(text@),
            ends_at_terminal(ev),
            valid_utf8(content@),
            text@ == decode_utf8(content@),
            i < evs.len(),
            elements <= i,
            depth <= i,
            max_depth <= i,
            xml_fold(ev.take(i as int)) == (XState {
                elements: elements as nat,
                attributes: attributes as nat,
                depth: depth as nat,
                max_depth: max_depth as nat,
                has_ns,
                stack: frames_view(stack@),
                schema: schema_view(schema),
            }),
        decreases evs.len() - i,
    {
        proof {
            assert(ev.take(i + 1).drop_last() =~= ev.take(i as int));
            assert(ev.take(i + 1).last() == ev[i as int]);
            assert(evs@[i as int]@ == ev[i as int]);
        }
        match &evs[i] {
            XmlEvent::Eof => {
                proof {
                    assert(i == evs.len() - 1) by {
                        if i < evs.len() - 1 {
                            assert(!is_terminal(ev[i as int]));
                        }
                    }
                    assert(ev.drop_last() =~= ev.take(i as int));
                }
                return Ok(XmlMetadata {
                    file_size: Some(byte_count),
                    element_count: Some(elements),
                    attribute_count: Some(attributes),
                    max_depth: Some(max_depth),
                    has_namespaces: Some(has_ns),
                    schema,
                });
            },
            XmlEvent::Error(message) => {
                proof {
                    assert(i == evs.len() - 1) by {
                        if i < evs.len() - 1 {
                            assert(!is_terminal(ev[i as int]));
                        }
                    }
                    assert(ev.drop_last() =~= ev.take(i as int));
                }
                let mut v = chars_of("XML parse error: ");
                append_chars(&mut v, chars_of(message.as_str()).as_slice());
                return Err(string_of(v.as_slice()));
            },
            XmlEvent::Tag(_name, keys, _, false) => {
                if keys.len() > usize::MAX - attributes {
                    proof {
                        assert(i < evs.len() - 1) by {
                            assert(!is_terminal(ev[i as int]));
                        }
                        lemma_attrs_monotone(ev.drop_last(), i + 1);
                        assert(ev.drop_last().take(i + 1) =~= ev.take(i + 1));
                    }
                    return Err("XML document too large to count".to_owned());
                }
                elements = elements + 1;
                attributes = attributes + keys.len();
                depth = depth + 1;
                if depth > max_depth {
                    max_depth = depth;
                }
                let (attrs, ns) = collect_attrs(keys);
                has_ns = has_ns || ns;
                let ghost prev = stack@;
                let fresh: Vec<(String, XmlTypeInfo)> = Vec::new();
                assert(entries_view(fresh@) =~= Seq::<(Seq<char>, XType)>::empty());
                let frame = (attrs, fresh);
                stack.push(frame);
                proof {
                    assert(stack@ == prev.push(frame));
                    assert(frames_view(stack@) =~= frames_view(prev).push((entries_view(frame.0@), entries_view(frame.1@))));
                    assert(frames_view(stack@) =~= xml_fold(ev.take(i as int)).stack.push(
                        (attrs_of(crate::pickle::strings_view(keys@)), Seq::empty()),
                    ));
                }
            },
            XmlEvent::Tag(name, keys, _, true) => {
                if keys.len() > usize::MAX - attributes {
                    proof {
                        assert(i < evs.len() - 1) by {
                            assert(!is_terminal(ev[i as int]));
                        }
                        lemma_attrs_monotone(ev.drop_last(), i + 1);
                        assert(ev.drop_last().take(i + 1) =~= ev.take(i + 1));
                    }
                    return Err("XML document too large to count".to_owned());
                }
                elements = elements + 1;
                attributes = attributes + keys.len();
                if depth + 1 > max_depth {
                    max_depth = depth + 1;
                }
                let (attrs, ns) = collect_attrs(keys);
                has_ns = has_ns || ns;
                let local = local_name_of(name.as_str());
                let node = XmlTypeInfo::Element { attributes: attrs, children: Vec::new() };
                proof {
                    assert(children_view(Seq::<(String, XmlTypeInfo)>::empty()) =~= Seq::<(Seq<char>, XType)>::empty());
                }
                merge_into_open(&mut stack, local, node);
            },
            XmlEvent::End(name) => {
                if depth > 0 {
                    depth = depth - 1;
                }
                let ghost before = frames_view(stack@);
                match stack.pop() {
                    Some(top) => {
                        let (attrs, children) = top;
                        proof {
                            lemma_children_view(children@);
                            assert(frames_view(stack@) =~= before.drop_last());
                        }
                        let ty = XmlTypeInfo::Element { attributes: attrs, children };
                        let local = local_name_of(name.as_str());
                        if stack.len() > 0 {
                            merge_into_open(&mut stack, local, ty);
                        } else {
                            let mut root: Vec<(String, XmlTypeInfo)> = Vec::new();
                            root.push((local, ty));
                            assert(entries_view(root@) =~= seq![(local@, ty@)]);
                            schema = Some(root);
                        }
                    },
                    None => {},
                }
            },
            _ => {},
        }
        i = i + 1;
    }
    proof {
        assert(false) by {
            assert(is_terminal(ev.last()));
        }
    }
    Err("XML parse error: ".to_owned())
}

/// A child merged under a name it already has turns that name into an array;
/// under a new name it is kept as it is.
pub proof fn law_repeated_child_becomes_array(c: Seq<(Seq<char>, XType)>, k: Seq<char>, v: XType)
    ensures
        map_get(c, k) is Some ==> map_get(merge_child_spec(c, k, v), k) matches Some(XType::Array(_)),
        map_get(c, k) is None ==> map_get(merge_child_spec(c, k, v), k) == Some(v),
{
    match map_get(c, k) {
        Some(existing) => lemma_get_put(c, k, XType::Array(Box::new(merge_into(array_inner(existing), v)))),
        None => lemma_get_put(c, k, v),
    }
}

// ---------------------------------------------------------------------------
// Key order
// ---------------------------------------------------------------------------

/// Every map in a structural type has its keys in increasing order.
pub open spec fn xtype_sorted(t: XType) -> bool
    decreases t, 1nat,
{
    match t {
        XType::Element(a, c) => ascending(a) && ascending(c) && children_sorted(c),
        XType::Array(inner) => xtype_sorted(*inner),
    }
}

/// Every child type has its maps' keys in increasing order.
pub open spec fn children_sorted(c: Seq<(Seq<char>, XType)>) -> bool
    decreases c, 0nat,
{
    if c.len() == 0 {
        true
    } else {
        proof {
            assert(decreases_to!(c => c.last()));
        }
        children_sorted(c.drop_last()) && xtype_sorted(c.last().1)
    }
}

proof fn lemma_children_sorted_all(c: Seq<(Seq<char>, XType)>)
    ensures
        children_sorted(c) <==> forall|i: int| 0 <= i < c.len() ==> xtype_sorted(#[trigger] c[i].1),
    decreases c.len(),
{
    if c.len() > 0 {
        lemma_children_sorted_all(c.drop_last());
        if forall|i: int| 0 <= i < c.len() ==> xtype_sorted(#[trigger] c[i].1) {
            assert forall|i: int| 0 <= i < c.drop_last().len() implies xtype_sorted(#[trigger] c.drop_last()[i].1) by {
                assert(c.drop_last()[i] == c[i]);
            }
        }
        if children_sorted(c) {
            assert forall|i: int| 0 <= i < c.len() implies xtype_sorted(#[trigger] c[i].1) by {
                if i < c.len() - 1 {
                    assert(c.drop_last()[i] == c[i]);
                }
            }
        }
    }
}

proof fn lemma_put_children_sorted(c: Seq<(Seq<char>, XType)>, k: Seq<char>, v: XType)
    requires
        ascending(c),
        children_sorted(c),
        xtype_sorted(v),
    ensures
        ascending(map_put(c, k, v)),
        children_sorted(map_put(c, k, v)),
{
    lemma_put_ascending(c, k, v);
    lemma_children_sorted_all(c);
    let r = map_put(c, k, v);
    lemma_find_key_from(c, k, 0);
    assert forall|i: int| 0 <= i < r.len() implies xtype_sorted(#[trigger] r[i].1) by {
        let j = find_key(c, k);
        if j < c.len() {
            if i != j {
                assert(r[i] == c[i]);
            }
        } else {
            let p = crate::sorted_map::insert_pos(c, k);
            crate::sorted_map::lemma_insert_pos_from(c, k, 0);
            if i < p {
                assert(r[i] == c[i]);
            } else if i > p {
                assert(r[i] == c[i - 1]);
            }
        }
    }
    lemma_children_sorted_all(r);
}

proof fn lemma_put_attrs_sorted(a: Seq<(Seq<char>, Seq<char>)>, attrs: Seq<(Seq<char>, Seq<char>)>)
    requires
        ascending(a),
    ensures
        ascending(put_attrs(a, attrs)),
    decreases attrs.len(),
{
    if attrs.len() > 0 {
        lemma_put_attrs_sorted(a, attrs.drop_last());
        lemma_put_ascending(put_attrs(a, attrs.drop_last()), attrs.last().0, attrs.last().1);
    }
}

/// Merging keeps every map's keys in increasing order.
pub proof fn lemma_merge_into_sorted(into: XType, other: XType)
    requires
        xtype_sorted(into),
        xtype_sorted(other),
    ensures
        xtype_sorted(merge_into(into, other)),
    decreases other, 0nat,
{
    match other {
        XType::Array(inner) => lemma_merge_into_sorted(into, *inner),
        XType::Element(attrs, ch) => match into {
            XType::Element(a, c) => {
                assert(decreases_to!(other => ch));
                lemma_put_attrs_sorted(a, attrs);
                lemma_merge_children_sorted(c, ch);
            },
            XType::Array(_) => {},
        },
    }
}

/// Merging children keeps every map's keys in increasing order.
pub proof fn lemma_merge_children_sorted(c: Seq<(Seq<char>, XType)>, ch: Seq<(Seq<char>, XType)>)
    requires
        ascending(c),
        children_sorted(c),
        children_sorted(ch),
    ensures
        ascending(merge_children(c, ch)),
        children_sorted(merge_children(c, ch)),
    decreases ch, 0nat,
{
    if ch.len() > 0 {
        assert(decreases_to!(ch => ch.last()));
        lemma_merge_children_sorted(c, ch.drop_last());
        lemma_merge_child_sorted(merge_children(c, ch.drop_last()), ch.last().0, ch.last().1);
    }
}

/// Merging one child keeps every map's keys in increasing order.
pub proof fn lemma_merge_child_sorted(c: Seq<(Seq<char>, XType)>, k: Seq<char>, v: XType)
    requires
        ascending(c),
        children_sorted(c),
        xtype_sorted(v),
    ensures
        ascending(merge_child_spec(c, k, v)),
        children_sorted(merge_child_spec(c, k, v)),
    decreases v, 1nat,
{
    match map_get(c, k) {
        Some(existing) => {
            lemma_find_key_from(c, k, 0);
            lemma_children_sorted_all(c);
            assert(xtype_sorted(c[find_key(c, k)].1));
            let inner = array_inner(existing);
            assert(xtype_sorted(inner));
            lemma_merge_into_sorted(inner, v);
            lemma_put_children_sorted(c, k, XType::Array(Box::new(merge_into(inner, v))));
        },
        None => lemma_put_children_sorted(c, k, v),
    }
}

proof fn lemma_attrs_of_sorted(keys: Seq<Seq<char>>)
    ensures
        ascending(attrs_of(keys)),
    decreases keys.len(),
{
    if keys.len() > 0 {
        lemma_attrs_of_sorted(keys.drop_last());
        if !is_binding(keys.last()) {
            lemma_put_ascending(attrs_of(keys.drop_last()), local_name(keys.last()), "string"@);
        }
    }
}

/// The open elements and the schema of a scan keep their maps' keys in order.
pub open spec fn state_sorted(st: XState) -> bool {
    &&& forall|i: int| 0 <= i < st.stack.len() ==> ascending(#[trigger] st.stack[i].0) && ascending(st.stack[i].1)
        && children_sorted(st.stack[i].1)
    &&& st.schema matches Some(m) ==> ascending(m) && children_sorted(m)
}

proof fn lemma_merge_into_top_sorted(
    stack: Seq<(Seq<(Seq<char>, Seq<char>)>, Seq<(Seq<char>, XType)>)>,
    name: Seq<char>,
    ty: XType,
)
    requires
        forall|i: int| 0 <= i < stack.len() ==> ascending(#[trigger] stack[i].0) && ascending(stack[i].1)
            && children_sorted(stack[i].1),
        xtype_sorted(ty),
    ensures
        forall|i: int| 0 <= i < merge_into_top(stack, name, ty).len() ==> ascending(#[trigger] merge_into_top(stack, name, ty)[i].0)
            && ascending(merge_into_top(stack, name, ty)[i].1) && children_sorted(merge_into_top(stack, name, ty)[i].1),
{
    if stack.len() > 0 {
        let t = stack.last();
        assert(ascending(t.0) && ascending(t.1) && children_sorted(t.1));
        lemma_merge_child_sorted(t.1, name, ty);
    }
}

proof fn lemma_step_sorted(st: XState, e: XmlEv)
    requires
        state_sorted(st),
    ensures
        state_sorted(xml_step(st, e)),
{
    reveal_strlit("string");
    match e {
        XmlEv::Start(_, keys, _) => {
            lemma_attrs_of_sorted(keys);
            let r = xml_step(st, e);
            assert forall|i: int| 0 <= i < r.stack.len() implies ascending(#[trigger] r.stack[i].0) && ascending(r.stack[i].1)
                && children_sorted(r.stack[i].1) by {
                if i < st.stack.len() {
                    assert(r.stack[i] == st.stack[i]);
                }
            }
        },
        XmlEv::Empty(name, keys, _) => {
            lemma_attrs_of_sorted(keys);
            let ty = XType::Element(attrs_of(keys), Seq::empty());
            assert(children_sorted(Seq::<(Seq<char>, XType)>::empty()));
            assert(ascending(Seq::<(Seq<char>, XType)>::empty()));
            assert(xtype_sorted(ty));
            lemma_merge_into_top_sorted(st.stack, local_name(name), ty);
        },
        XmlEv::End(name) => {
            if st.stack.len() > 0 {
                let node = st.stack.last();
                assert(ascending(node.0) && ascending(node.1) && children_sorted(node.1));
                let ty = XType::Element(node.0, node.1);
                assert(xtype_sorted(ty));
                let rest = st.stack.drop_last();
                assert forall|i: int| 0 <= i < rest.len() implies ascending(#[trigger] rest[i].0) && ascending(rest[i].1)
                    && children_sorted(rest[i].1) by {
                    assert(rest[i] == st.stack[i]);
                }
                if rest.len() > 0 {
                    lemma_merge_into_top_sorted(rest, local_name(name), ty);
                } else {
                    let m = seq![(local_name(name), ty)];
                    assert(m.drop_last() =~= Seq::<(Seq<char>, XType)>::empty());
                    assert(children_sorted(m.drop_last()));
                    assert(m.last().1 == ty);
                    assert(children_sorted(m));
                }
            }
        },
        _ => {},
    }
}

proof fn lemma_fold_sorted(evs: Seq<XmlEv>)
    ensures
        state_sorted(xml_fold(evs)),
    decreases evs.len(),
{
    if evs.len() > 0 {
        lemma_fold_sorted(evs.drop_last());
        lemma_step_sorted(xml_fold(evs.drop_last()), evs.last());
    }
}

/// The schema of a document keeps every map (attributes and children, at
/// every level) in increasing key order.
pub proof fn law_schema_keys_in_order(text: Seq<char>)
    ensures
        spec_xml_metadata(text) matches Ok(v) ==> (v.schema matches Some(m) ==> ascending(m) && children_sorted(m)),
{
    lemma_fold_sorted(xml_event_list(text).drop_last());
}

} // verus!
