//! The XML event stream of a text as quick-xml reports it (text trimmed of
//! surrounding whitespace), and XML entity decoding.

use vstd::prelude::*;
use quick_xml::events::Event::{Empty, End, Eof, Start, Text};
use quick_xml::Reader;

use crate::pickle::strings_view;
use crate::text::{append_chars, chars_of, has_prefix, matches_at, occurs_at, string_of};

verus! {

// ---------------------------------------------------------------------------
// Events
// ---------------------------------------------------------------------------

/// One event of the stream: tags with their qualified names (and, for start and
/// empty tags, the keys and the raw values of their well-formed attributes, in
/// order), raw text, the rest, and errors with their message.
pub enum XmlEvent {
    /// A start tag, or an empty tag where the flag is set.
    Tag(String, Vec<String>, Vec<String>, bool),
    End(String),
    Text(String),
    Other,
    Eof,
    Error(String),
}

/// Model of an event.
pub enum XmlEv {
    Start(Seq<char>, Seq<Seq<char>>, Seq<Seq<char>>),
    Empty(Seq<char>, Seq<Seq<char>>, Seq<Seq<char>>),
    End(Seq<char>),
    Text(Seq<char>),
    Other,
    Eof,
    Error(Seq<char>),
}

impl View for XmlEvent {
    type V = XmlEv;

    open spec fn view(&self) -> XmlEv {
        match self {
            XmlEvent::Tag(name, keys, values, false) => XmlEv::Start(name@, strings_view(keys@), strings_view(values@)),
            XmlEvent::Tag(name, keys, values, true) => XmlEv::Empty(name@, strings_view(keys@), strings_view(values@)),
            XmlEvent::End(name) => XmlEv::End(name@),
            XmlEvent::Text(text) => XmlEv::Text(text@),
            XmlEvent::Other => XmlEv::Other,
            XmlEvent::Eof => XmlEv::Eof,
            XmlEvent::Error(message) => XmlEv::Error(message@),
        }
    }
}

/// End of input or an error: the reader reports nothing more worth reading.
pub open spec fn is_terminal(e: XmlEv) -> bool {
    e is Eof || e is Error
}

/// A non-empty run of events whose last event, and no other, is terminal.
pub open spec fn ends_at_terminal(s: Seq<XmlEv>) -> bool {
    &&& s.len() > 0
    &&& is_terminal(s.last())
    &&& forall|i: int| 0 <= i < s.len() - 1 ==> !is_terminal(#[trigger] s[i])
}

/// The models of a sequence of events.
pub open spec fn events_view(v: Seq<XmlEvent>) -> Seq<XmlEv> {
    v.map_values(|e: XmlEvent| e@)
}

// ---------------------------------------------------------------------------
// quick-xml
// ---------------------------------------------------------------------------

#[verifier::external_type_specification]
#[verifier::external_body]
#[verifier::reject_recursive_types(R)]
pub struct ExXmlReader<R>(Reader<R>);

/// The events quick-xml reports for `text` with text trimming on, up to and
/// including the first end of input or error.
pub uninterp spec fn xml_event_list(text: Seq<char>) -> Seq<XmlEv>;

/// The events a reader has still to report, up to and including the first end
/// of input or error.
pub uninterp spec fn xml_pending(r: Reader<&[u8]>) -> Seq<XmlEv>;

/// `Reader::from_str` with `trim_text(true)`: a reader over `text` whose pending
/// events are those of the text, which end at their first end of input or error.
#[verifier::external_body]
fn xml_reader(text: &str) -> (r: Reader<&[u8]>)
    ensures
        xml_pending(r) == xml_event_list(text@),
        ends_at_terminal(xml_pending(r)),
{
    let mut r = Reader::from_str(text);
    r.config_mut().trim_text(true);
    r
}

/// `Reader::read_event`: reports the first pending event, which leaves the rest
/// pending.
#[verifier::external_body]
fn next_xml_event(reader: &mut Reader<&[u8]>) -> (e: XmlEvent)
    requires
        xml_pending(*old(reader)).len() > 0,
    ensures
        e@ == xml_pending(*old(reader))[0],
        xml_pending(*final(reader)) == xml_pending(*old(reader)).drop_first(),
{
    let (e, empty) = match reader.read_event() {
        Ok(Start(e)) => (e, false),
        Ok(Empty(e)) => (e, true),
        Ok(End(e)) => return XmlEvent::End(e.name().0.into()),
        Ok(Text(e)) => return XmlEvent::Text(e.to_string()),
        Ok(Eof) => return XmlEvent::Eof,
        Ok(_) => return XmlEvent::Other,
        Err(e) => return XmlEvent::Error(e.to_string()),
    };
    let (k, v) = e.attributes().flatten().map(|a| (a.key.0.into(), a.value.into())).unzip();
    XmlEvent::Tag(e.name().0.into(), k, v, empty)
}

/// All events of `text`, up to and including the first end of input or error.
pub fn xml_events(text: &str) -> (v: Vec<XmlEvent>)
    ensures
        events_view(v@) == xml_event_list(text@),
        ends_at_terminal(events_view(v@)),
{
    let mut reader = xml_reader(text);
    let ghost all = xml_pending(reader);
    let mut v: Vec<XmlEvent> = Vec::new();
    loop
        invariant
            all == xml_event_list(text@),
            ends_at_terminal(all),
            v.len() < all.len(),
            events_view(v@) == all.subrange(0, v.len() as int),
            xml_pending(reader) == all.subrange(v.len() as int, all.len() as int),
        decreases all.len() - v.len(),
    {
        let e = next_xml_event(&mut reader);
        let done = match e {
            XmlEvent::Eof => true,
            XmlEvent::Error(_) => true,
            _ => false,
        };
        proof {
            assert(e@ == all[v.len() as int]);
        }
        v.push(e);
        assert(events_view(v@) =~= all.subrange(0, v.len() as int));
        if done {
            assert(v.len() == all.len()) by {
                if v.len() < all.len() {
                    assert(!is_terminal(all[v.len() - 1]));
                }
            }
            assert(all.subrange(0, v.len() as int) =~= all);
            return v;
        }
        assert(xml_pending(reader) =~= all.subrange(v.len() as int, all.len() as int));
    }
}

// ---------------------------------------------------------------------------
// Entities
// ---------------------------------------------------------------------------

/// What `quick_xml::escape::unescape` gives for `text` (`None` where it fails).
pub uninterp spec fn xml_unescaped(text: Seq<char>) -> Option<Seq<char>>;

/// `quick_xml::escape::unescape`.
#[verifier::external_body]
fn xml_unescape(text: &str) -> (r: Option<String>)
    ensures
        match r {
            Some(s) => xml_unescaped(text@) == Some(s@),
            None => xml_unescaped(text@) is None,
        },
{
    quick_xml::escape::unescape(text).ok().map(|c| c.into_owned())
}

/// `s` with every occurrence of `pat` replaced by `rep`, scanning left to right
/// (`str::replace` for a non-empty pattern).
pub open spec fn replace_all(s: Seq<char>, pat: Seq<char>, rep: Seq<char>) -> Seq<char>
    decreases s.len(),
{
    if s.len() == 0 || pat.len() == 0 {
        s
    } else if has_prefix(s, pat) {
        rep + replace_all(s.skip(pat.len() as int), pat, rep)
    } else {
        seq![s[0]] + replace_all(s.skip(1), pat, rep)
    }
}

/// The text from index `i` on with each of the five predefined entities
/// (`&amp;`, `&lt;`, `&gt;`, `&quot;`, `&apos;`) decoded once, scanning left to
/// right: what a decoded entity yields is not read again.
pub open spec fn decode_entities_from(s: Seq<char>, i: int) -> Seq<char>
    decreases (if i < s.len() {
        s.len() - i
    } else {
        0
    }),
{
    if i < 0 || i >= s.len() {
        Seq::empty()
    } else if occurs_at(s, "&amp;"@, i) {
        "&"@ + decode_entities_from(s, i + 5)
    } else if occurs_at(s, "&lt;"@, i) {
        "<"@ + decode_entities_from(s, i + 4)
    } else if occurs_at(s, "&gt;"@, i) {
        ">"@ + decode_entities_from(s, i + 4)
    } else if occurs_at(s, "&quot;"@, i) {
        "\""@ + decode_entities_from(s, i + 6)
    } else if occurs_at(s, "&apos;"@, i) {
        "'"@ + decode_entities_from(s, i + 6)
    } else {
        seq![s[i]] + decode_entities_from(s, i + 1)
    }
}

/// The text with each of the five predefined entities decoded once.
pub open spec fn spec_entities_fallback(s: Seq<char>) -> Seq<char> {
    decode_entities_from(s, 0)
}

/// Text with entities decoded: quick-xml's decoding where it succeeds, else the
/// fallback.
pub open spec fn spec_decode_entities(s: Seq<char>) -> Seq<char> {
    match xml_unescaped(s) {
        Some(d) => d,
        None => spec_entities_fallback(s),
    }
}

/// `s` with every occurrence of a non-empty `pat` replaced by `rep`.
pub fn replace_chars(s: &[char], pat: &[char], rep: &[char]) -> (r: Vec<char>)
    requires
        pat.len() > 0,
    ensures
        r@ == replace_all(s@, pat@, rep@),
{
    let mut out: Vec<char> = Vec::new();
    let mut i: usize = 0;
    assert(s@.skip(0) =~= s@);
    assert(out@ + s@ =~= s@);
    while i < s.len()
        invariant
            i <= s.len(),
            pat.len() > 0,
            out@ + replace_all(s@.skip(i as int), pat@, rep@) == replace_all(s@, pat@, rep@),
        decreases s.len() - i,
    {
        let ghost rest = s@.skip(i as int);
        if matches_at(s, pat, i) {
            proof {
                assert(rest.subrange(0, pat@.len() as int) =~= s@.subrange(
                    i as int,
                    i + pat@.len(),
                ));
                assert(rest.skip(pat@.len() as int) =~= s@.skip(i + pat@.len()));
            }
            append_chars(&mut out, rep);
            i = i + pat.len();
            assert(out@ + replace_all(s@.skip(i as int), pat@, rep@) =~= replace_all(
                s@,
                pat@,
                rep@,
            ));
        } else {
            proof {
                if rest.len() >= pat@.len() {
                    assert(rest.subrange(0, pat@.len() as int) =~= s@.subrange(
                        i as int,
                        i + pat@.len(),
                    ));
                }
                assert(rest.skip(1) =~= s@.skip(i + 1));
                assert(rest[0] == s@[i as int]);
            }
            out.push(s[i]);
            i = i + 1;
            assert(out@ + replace_all(s@.skip(i as int), pat@, rep@) =~= replace_all(
                s@,
                pat@,
                rep@,
            ));
        }
    }
    assert(s@.skip(i as int) =~= Seq::<char>::empty());
    assert(out@ =~= replace_all(s@, pat@, rep@));
    out
}

/// Decodes the five predefined XML entities in one left-to-right pass.
pub fn decode_xml_entities_fallback(text: &str) -> (r: String)
    ensures
        r@ == spec_entities_fallback(text@),
{
    proof {
        reveal_strlit("&amp;");
        reveal_strlit("&lt;");
        reveal_strlit("&gt;");
        reveal_strlit("&quot;");
        reveal_strlit("&apos;");
        reveal_strlit("&");
        reveal_strlit("<");
        reveal_strlit(">");
        reveal_strlit("\"");
        reveal_strlit("'");
    }
    let s = chars_of(text);
    let amp = chars_of("&amp;");
    let lt = chars_of("&lt;");
    let gt = chars_of("&gt;");
    let quot = chars_of("&quot;");
    let apos = chars_of("&apos;");
    let mut out: Vec<char> = Vec::new();
    let mut i: usize = 0;
    while i < s.len()
        invariant
            i <= s.len(),
            s@ == text@,
            amp@ == "&amp;"@,
            lt@ == "&lt;"@,
            gt@ == "&gt;"@,
            quot@ == "&quot;"@,
            apos@ == "&apos;"@,
            out@ + decode_entities_from(s@, i as int) == decode_entities_from(s@, 0),
        decreases s.len() - i,
    {
        proof {
            reveal_strlit("&amp;");
            reveal_strlit("&lt;");
            reveal_strlit("&gt;");
            reveal_strlit("&quot;");
            reveal_strlit("&apos;");
            reveal_strlit("&");
            reveal_strlit("<");
            reveal_strlit(">");
            reveal_strlit("\"");
            reveal_strlit("'");
        }
        let ghost prev = out@;
        let ghost rest = decode_entities_from(s@, i as int);
        if matches_at(s.as_slice(), amp.as_slice(), i) {
            out.push('&');
            i = i + 5;
        } else if matches_at(s.as_slice(), lt.as_slice(), i) {
            out.push('<');
            i = i + 4;
        } else if matches_at(s.as_slice(), gt.as_slice(), i) {
            out.push('>');
            i = i + 4;
        } else if matches_at(s.as_slice(), quot.as_slice(), i) {
            out.push('"');
            i = i + 6;
        } else if matches_at(s.as_slice(), apos.as_slice(), i) {
            out.push('\'');
            i = i + 6;
        } else {
            out.push(s[i]);
            i = i + 1;
        }
        assert(out@ + decode_entities_from(s@, i as int) =~= prev + rest);
    }
    assert(decode_entities_from(s@, i as int) =~= Seq::<char>::empty());
    assert(out@ + Seq::<char>::empty() =~= out@);
    string_of(out.as_slice())
}

/// Decodes XML entities, falling back to the five predefined ones where
/// quick-xml refuses the text.
pub fn decode_xml_entities(text: &str) -> (r: String)
    ensures
        r@ == spec_decode_entities(text@),
{
    match xml_unescape(text) {
        Some(s) => s,
        None => decode_xml_entities_fallback(text),
    }
}

// ---------------------------------------------------------------------------
// Laws
// ---------------------------------------------------------------------------

proof fn lemma_decode_plain(s: Seq<char>, i: int)
    requires
        0 <= i <= s.len(),
        forall|k: int| 0 <= k < s.len() ==> s[k] != '&',
    ensures
        decode_entities_from(s, i) == s.skip(i),
    decreases s.len() - i,
{
    reveal_strlit("&amp;");
    reveal_strlit("&lt;");
    reveal_strlit("&gt;");
    reveal_strlit("&quot;");
    reveal_strlit("&apos;");
    if i < s.len() {
        assert(!occurs_at(s, "&amp;"@, i)) by {
            if occurs_at(s, "&amp;"@, i) {
                assert(s.subrange(i, i + 5)[0] == s[i]);
            }
        }
        assert(!occurs_at(s, "&lt;"@, i)) by {
            if occurs_at(s, "&lt;"@, i) {
                assert(s.subrange(i, i + 4)[0] == s[i]);
            }
        }
        assert(!occurs_at(s, "&gt;"@, i)) by {
            if occurs_at(s, "&gt;"@, i) {
                assert(s.subrange(i, i + 4)[0] == s[i]);
            }
        }
        assert(!occurs_at(s, "&quot;"@, i)) by {
            if occurs_at(s, "&quot;"@, i) {
                assert(s.subrange(i, i + 6)[0] == s[i]);
            }
        }
        assert(!occurs_at(s, "&apos;"@, i)) by {
            if occurs_at(s, "&apos;"@, i) {
                assert(s.subrange(i, i + 6)[0] == s[i]);
            }
        }
        lemma_decode_plain(s, i + 1);
        assert(seq![s[i]] + s.skip(i + 1) =~= s.skip(i));
    } else {
        assert(s.skip(i) =~= Seq::<char>::empty());
    }
}

/// Law: text without `&` comes out of the fallback decoder unchanged.
pub proof fn law_fallback_keeps_plain_text(s: Seq<char>)
    requires
        forall|i: int| 0 <= i < s.len() ==> s[i] != '&',
    ensures
        spec_entities_fallback(s) == s,
{
    lemma_decode_plain(s, 0);
    assert(s.skip(0) =~= s);
}

/// Law: an escaped entity is decoded once: `&amp;lt;` gives `&lt;`.
pub proof fn law_fallback_decodes_once()
    ensures
        spec_entities_fallback("&amp;lt;"@) == "&lt;"@,
{
    reveal_strlit("&amp;lt;");
    reveal_strlit("&lt;");
    reveal_strlit("&amp;");
    reveal_strlit("&gt;");
    reveal_strlit("&quot;");
    reveal_strlit("&apos;");
    reveal_strlit("&");
    let s = "&amp;lt;"@;
    assert(s.subrange(0, 5) =~= "&amp;"@);
    lemma_decode_plain_tail(s);
    assert("&"@ + seq!['l', 't', ';'] =~= "&lt;"@);
}

proof fn lemma_decode_plain_tail(s: Seq<char>)
    requires
        s == "&amp;lt;"@,
    ensures
        decode_entities_from(s, 5) == seq!['l', 't', ';'],
{
    reveal_strlit("&amp;lt;");
    reveal_strlit("&amp;");
    reveal_strlit("&lt;");
    reveal_strlit("&gt;");
    reveal_strlit("&quot;");
    reveal_strlit("&apos;");
    reveal_with_fuel(decode_entities_from, 4);
    assert(decode_entities_from(s, 8) == Seq::<char>::empty());
    assert(decode_entities_from(s, 7) =~= seq![';']);
    assert(decode_entities_from(s, 6) =~= seq!['t', ';']);
}

} // verus!
