//! Markdown block structure: headers, horizontal rules, fenced code blocks,
//! block quotes, lists and paragraphs.

use vstd::prelude::*;
use vstd::utf8::encode_utf8;
use vstd::string::StringSliceAdditionalSpecFns;

use crate::npy::{parse_usize, parse_usize_chars};
use crate::regexp::{regex_capture, regex_captures, regex_captures_of, regex_group, regex_is_match, regex_matches};
use crate::pivots::{split_words, words};
use crate::text::{append_chars, chars_of, decimal, decimal_chars, has_prefix, string_of, trim, trim_chars};

verus! {

/// Markdown element types.
pub enum MarkdownElement {
    Header { level: usize, text: String },
    Paragraph { text: String },
    ListItem { text: String, ordered: bool },
    CodeBlock { language: Option<String>, content: String },
    InlineCode { content: String },
    Link { text: String, url: String },
    Bold { text: String },
    Italic { text: String },
    HorizontalRule,
    BlockQuote { text: String },
}

/// The texts of some lines.
pub open spec fn line_texts(lines: Seq<&str>) -> Seq<Seq<char>> {
    lines.map_values(|l: &str| l@)
}

// ---------------------------------------------------------------------------
// Code blocks
// ---------------------------------------------------------------------------

/// Index of the first line at or after `i` whose trimmed text starts with a
/// fence, or `ls.len()`.
pub open spec fn closing_fence(ls: Seq<Seq<char>>, i: int) -> int
    decreases ls.len() - i,
{
    if i >= ls.len() {
        ls.len() as int
    } else if has_prefix(trim(ls[i]), "```"@) {
        i
    } else {
        closing_fence(ls, i + 1)
    }
}

/// Lines `a..e` each preceded by a newline.
pub open spec fn newline_joined(ls: Seq<Seq<char>>, a: int, e: int) -> Seq<char>
    decreases e - a,
{
    if e <= a {
        Seq::empty()
    } else {
        newline_joined(ls, a, e - 1).push('\n') + ls[e - 1]
    }
}

/// Language named after the opening fence (three backticks, one byte each):
/// the trimmed text after them, where there is any.
pub open spec fn fence_language(first: Seq<char>) -> Option<Seq<char>> {
    if first.len() > 3 {
        Some(trim(first.skip(3)))
    } else {
        None
    }
}

/// A fenced code block opening at `start`: its language, its trimmed content and
/// the line after the closing fence; `None` when no fence closes it.
pub open spec fn spec_code_block(ls: Seq<Seq<char>>, start: int) -> Option<(Option<Seq<char>>, Seq<char>, int)> {
    let close = closing_fence(ls, start + 1);
    if close >= ls.len() {
        None
    } else {
        Some((fence_language(trim(ls[start])), trim(newline_joined(ls, start + 1, close)), close + 1))
    }
}

/// Reads a fenced code block (```` ```language ````, lines, closing fence).
pub fn parse_code_block(lines: &[&str], start_idx: usize) -> (r: Option<(MarkdownElement, usize)>)
    requires
        start_idx < lines.len(),
        has_prefix(trim(lines@[start_idx as int]@), "```"@),
    ensures
        match spec_code_block(line_texts(lines@), start_idx as int) {
            None => r is None,
            Some((lang, content, next)) => r matches Some((MarkdownElement::CodeBlock { language, content: c }, n)) && n == next && c@ == content && match language {
                Some(l) => lang == Some(l@),
                None => lang is None,
            },
        },
{
    let ghost ls = line_texts(lines@);
    let first = trim_chars(chars_of(lines[start_idx]).as_slice());
    let language = if first.len() > 3 {
        let mut rest: Vec<char> = Vec::new();
        let mut k: usize = 3;
        while k < first.len()
            invariant
                3 <= k <= first.len(),
                rest@ == first@.subrange(3, k as int),
            decreases first.len() - k,
        {
            rest.push(first[k]);
            k = k + 1;
            assert(rest@ =~= first@.subrange(3, k as int));
        }
        assert(rest@ =~= first@.skip(3));
        let l = string_of(trim_chars(rest.as_slice()).as_slice());
        Some(l)
    } else {
        None
    };
    let mut content: Vec<char> = Vec::new();
    let mut i = start_idx + 1;
    assert(first@ == trim(ls[start_idx as int]));
    while i < lines.len()
        invariant
            start_idx < i <= lines.len(),
            ls == line_texts(lines@),
            match language {
                Some(l) => fence_language(trim(ls[start_idx as int])) == Some(l@),
                None => fence_language(trim(ls[start_idx as int])) is None,
            },
            closing_fence(ls, start_idx + 1) == closing_fence(ls, i as int),
            content@ == newline_joined(ls, start_idx + 1, i as int),
        decreases lines.len() - i,
    {
        let t = trim_chars(chars_of(lines[i]).as_slice());
        if t.len() >= 3 && t[0] == '`' && t[1] == '`' && t[2] == '`' {
            proof {
                reveal_strlit("```");
                assert(t@.subrange(0, 3) =~= "```"@);
            }
            let c = string_of(trim_chars(content.as_slice()).as_slice());
            return Some((MarkdownElement::CodeBlock { language, content: c }, i + 1));
        }
        proof {
            reveal_strlit("```");
            if t@.len() >= 3 {
                assert(t@.subrange(0, 3)[0] == t@[0]);
                assert(t@.subrange(0, 3)[1] == t@[1]);
                assert(t@.subrange(0, 3)[2] == t@[2]);
            }
        }
        content.push('\n');
        append_chars(&mut content, chars_of(lines[i]).as_slice());
        i = i + 1;
    }
    None
}

// ---------------------------------------------------------------------------
// Block quotes
// ---------------------------------------------------------------------------

/// Text of a quoted line (trimmed, starting with `>`): the trimmed rest.
pub open spec fn quote_text(t: Seq<char>) -> Seq<char> {
    if t.len() > 1 {
        trim(t.skip(1))
    } else {
        Seq::empty()
    }
}

/// A trimmed line that starts with `>`.
pub open spec fn is_quote_line(l: Seq<char>) -> bool {
    trim(l).len() > 0 && trim(l)[0] == '>'
}

/// End of the run of quoted lines starting at `i`.
pub open spec fn quote_end(ls: Seq<Seq<char>>, i: int) -> int
    decreases ls.len() - i,
{
    if i >= ls.len() || i < 0 || !is_quote_line(ls[i]) {
        i
    } else {
        quote_end(ls, i + 1)
    }
}

/// The non-empty quote texts of lines `a..e`.
pub open spec fn quote_parts(ls: Seq<Seq<char>>, a: int, e: int) -> Seq<Seq<char>>
    decreases e - a,
{
    if e <= a {
        Seq::empty()
    } else {
        let q = quote_text(trim(ls[e - 1]));
        if q.len() > 0 {
            quote_parts(ls, a, e - 1).push(q)
        } else {
            quote_parts(ls, a, e - 1)
        }
    }
}

/// Parts joined with single spaces.
pub open spec fn space_joined(parts: Seq<Seq<char>>) -> Seq<char>
    decreases parts.len(),
{
    if parts.len() == 0 {
        Seq::empty()
    } else if parts.len() == 1 {
        parts[0]
    } else {
        space_joined(parts.drop_last()).push(' ') + parts.last()
    }
}

/// A block quote starting at `start`: the joined quote texts and the first line
/// after it; `None` when no quoted line has text.
pub open spec fn spec_block_quote(ls: Seq<Seq<char>>, start: int) -> Option<(Seq<char>, int)> {
    let e = quote_end(ls, start);
    let parts = quote_parts(ls, start, e);
    if parts.len() == 0 {
        None
    } else {
        Some((space_joined(parts), e))
    }
}

/// Reads a block quote (consecutive lines starting with `>`).
pub fn parse_block_quote(lines: &[&str], start_idx: usize) -> (r: Option<(MarkdownElement, usize)>)
    ensures
        match spec_block_quote(line_texts(lines@), start_idx as int) {
            None => r is None,
            Some((text, next)) => r matches Some((MarkdownElement::BlockQuote { text: t }, n)) && n == next && t@ == text,
        },
{
    let ghost ls = line_texts(lines@);
    if start_idx >= lines.len() {
        return None;
    }
    let mut joined: Vec<char> = Vec::new();
    let mut parts: usize = 0;
    let mut i = start_idx;
    while i < lines.len()
        invariant
            start_idx <= i <= lines.len(),
            ls == line_texts(lines@),
            quote_end(ls, start_idx as int) == quote_end(ls, i as int),
            forall|k: int| start_idx <= k < i ==> is_quote_line(#[trigger] ls[k]),
            parts == quote_parts(ls, start_idx as int, i as int).len(),
            joined@ == space_joined(quote_parts(ls, start_idx as int, i as int)),
            parts <= i - start_idx,
        ensures
            start_idx <= i <= lines.len(),
            i == quote_end(ls, start_idx as int),
            parts == quote_parts(ls, start_idx as int, i as int).len(),
            joined@ == space_joined(quote_parts(ls, start_idx as int, i as int)),
        decreases lines.len() - i,
    {
        let t = trim_chars(chars_of(lines[i]).as_slice());
        assert(t@ == trim(ls[i as int]));
        if !(t.len() > 0 && t[0] == '>') {
            break;
        }
        let q: Vec<char> = if t.len() > 1 {
            let mut rest: Vec<char> = Vec::new();
            let mut k: usize = 1;
            while k < t.len()
                invariant
                    1 <= k <= t.len(),
                    rest@ == t@.subrange(1, k as int),
                decreases t.len() - k,
            {
                rest.push(t[k]);
                k = k + 1;
            }
            assert(rest@ =~= t@.skip(1));
            trim_chars(rest.as_slice())
        } else {
            Vec::new()
        };
        let ghost before = quote_parts(ls, start_idx as int, i as int);
        assert(q@ == quote_text(trim(ls[i as int])));
        if q.len() > 0 {
            if parts > 0 {
                joined.push(' ');
            }
            append_chars(&mut joined, q.as_slice());
            parts = parts + 1;
            assert(before.push(q@).drop_last() =~= before);
            assert(quote_parts(ls, start_idx as int, i + 1) == before.push(q@));
        }
        i = i + 1;
    }
    if parts == 0 {
        None
    } else {
        Some((MarkdownElement::BlockQuote { text: string_of(joined.as_slice()) }, i))
    }
}

// ---------------------------------------------------------------------------
// Headers, rules, lists and paragraphs
// ---------------------------------------------------------------------------

/// A header line: one to six `#`, whitespace, text.
pub const HEADER_RE: &'static str = r"^(#{1,6})\s+(.+)$";

/// A horizontal rule: three or more of `-`, `*`, `_`.
pub const RULE_RE: &'static str = r"^[-*_]{3,}$";

/// A list item: indent, marker (`-`, `*`, `+` or a number with a dot),
/// whitespace, text.
pub const LIST_RE: &'static str = r"^(\s*)([-*+]|\d+\.)\s+(.+)$";

/// The start of a list item.
pub const LIST_START_RE: &'static str = r"^(\s*)([-*+]|\d+\.)\s+";

/// Model of a markdown element.
pub enum MdView {
    Header(usize, Seq<char>),
    Paragraph(Seq<char>),
    ListItem(Seq<char>, bool),
    CodeBlock(Option<Seq<char>>, Seq<char>),
    InlineCode(Seq<char>),
    Link(Seq<char>, Seq<char>),
    Bold(Seq<char>),
    Italic(Seq<char>),
    HorizontalRule,
    BlockQuote(Seq<char>),
}

/// Model of an element.
pub open spec fn md_view(e: MarkdownElement) -> MdView {
    match e {
        MarkdownElement::Header { level, text } => MdView::Header(level, text@),
        MarkdownElement::Paragraph { text } => MdView::Paragraph(text@),
        MarkdownElement::ListItem { text, ordered } => MdView::ListItem(text@, ordered),
        MarkdownElement::CodeBlock { language, content } => MdView::CodeBlock(crate::pickle::opt_text(language), content@),
        MarkdownElement::InlineCode { content } => MdView::InlineCode(content@),
        MarkdownElement::Link { text, url } => MdView::Link(text@, url@),
        MarkdownElement::Bold { text } => MdView::Bold(text@),
        MarkdownElement::Italic { text } => MdView::Italic(text@),
        MarkdownElement::HorizontalRule => MdView::HorizontalRule,
        MarkdownElement::BlockQuote { text } => MdView::BlockQuote(text@),
    }
}

/// Models of elements.
pub open spec fn md_views(v: Seq<MarkdownElement>) -> Seq<MdView> {
    v.map_values(|e: MarkdownElement| md_view(e))
}

/// The header a trimmed line gives: its level is the length in bytes of the
/// `#` run, its text the rest after the whitespace.
pub open spec fn spec_header(line: Seq<char>) -> Option<MdView> {
    match (regex_group(HEADER_RE@, line, 1), regex_group(HEADER_RE@, line, 2)) {
        (Some(marks), Some(text)) => Some(MdView::Header(encode_utf8(marks).len() as usize, text)),
        _ => None,
    }
}

/// Reads a header line (already trimmed).
pub fn parse_header(line: &str) -> (r: Option<MarkdownElement>)
    ensures
        match spec_header(line@) {
            Some(h) => r matches Some(e) && md_view(e) == h,
            None => r is None,
        },
{
    let marks = match regex_capture(HEADER_RE, line, 1) {
        Some(m) => m,
        None => return None,
    };
    let text = match regex_capture(HEADER_RE, line, 2) {
        Some(t) => t,
        None => return None,
    };
    let level = marks.as_str().as_bytes().len();
    Some(MarkdownElement::Header { level, text })
}

/// The list items from line `i` on: lines matching a list item, then past one
/// blank line; `None` where a matched line lacks its marker or text.
pub open spec fn list_scan(ls: Seq<Seq<char>>, i: int) -> Option<(Seq<MdView>, int)>
    decreases ls.len() - i,
{
    if i < 0 || i >= ls.len() {
        Some((Seq::empty(), i))
    } else {
        match regex_captures_of(LIST_RE@, ls[i]) {
            Some(_) => match (regex_group(LIST_RE@, ls[i], 2), regex_group(LIST_RE@, ls[i], 3)) {
                (Some(marker), Some(text)) => match list_scan(ls, i + 1) {
                    Some((rest, e)) => Some((seq![MdView::ListItem(text, parse_usize(marker) is Some)] + rest, e)),
                    None => None,
                },
                _ => None,
            },
            None => if trim(ls[i]).len() == 0 {
                Some((Seq::empty(), i + 1))
            } else {
                Some((Seq::empty(), i))
            },
        }
    }
}

/// A list starting at line `start` (whose trimmed text starts a list item):
/// its items and the line after it.
pub open spec fn spec_list(ls: Seq<Seq<char>>, start: int) -> Option<(Seq<MdView>, int)> {
    if !regex_matches(LIST_RE@, trim(ls[start])) {
        None
    } else {
        match list_scan(ls, start) {
            Some((items, e)) => if items.len() == 0 {
                None
            } else {
                Some((items, e))
            },
            None => None,
        }
    }
}

/// The list scan ends at or after its start, after it when it found items.
pub proof fn lemma_list_scan_end(ls: Seq<Seq<char>>, i: int)
    requires
        0 <= i <= ls.len(),
    ensures
        list_scan(ls, i) matches Some((items, e)) ==> i <= e <= ls.len() && (items.len() > 0 ==> e > i),
    decreases ls.len() - i,
{
    if i < ls.len() {
        lemma_list_scan_end(ls, i + 1);
    }
}

/// Reads the list items starting at line `start_idx`.
pub fn parse_list(lines: &[&str], start_idx: usize) -> (r: Option<(Vec<MarkdownElement>, usize)>)
    requires
        start_idx < lines.len(),
    ensures
        match spec_list(line_texts(lines@), start_idx as int) {
            Some((items, next)) => r matches Some((v, n)) && md_views(v@) == items && n == next,
            None => r is None,
        },
{
    let ghost ls = line_texts(lines@);
    let first = string_of(trim_chars(chars_of(lines[start_idx]).as_slice()).as_slice());
    if !regex_is_match(LIST_RE, first.as_str()) {
        return None;
    }
    let mut items: Vec<MarkdownElement> = Vec::new();
    let mut i = start_idx;
    let mut end: usize = lines.len();
    let mut ended = false;
    while i < lines.len()
        invariant_except_break
            !ended,
        invariant
            start_idx <= i <= lines.len(),
            ls == line_texts(lines@),
            list_scan(ls, start_idx as int) == match list_scan(ls, i as int) {
                Some((rest, e)) => Some((md_views(items@) + rest, e)),
                None => None,
            },
        ensures
            ended ==> list_scan(ls, start_idx as int) == Some((md_views(items@), end as int)) && end <= lines.len(),
            !ended ==> i == lines.len() && list_scan(ls, start_idx as int) == Some((md_views(items@), i as int)),
        decreases lines.len() - i,
    {
        assert(lines@[i as int]@ == ls[i as int]);
        match regex_captures(LIST_RE, lines[i]) {
            Some(_) => {
                let marker = match regex_capture(LIST_RE, lines[i], 2) {
                    Some(m) => m,
                    None => return None,
                };
                let text = match regex_capture(LIST_RE, lines[i], 3) {
                    Some(t) => t,
                    None => return None,
                };
                let ordered = parse_usize_chars(chars_of(marker.as_str()).as_slice()).is_some();
                let item = MarkdownElement::ListItem { text, ordered };
                let ghost prev = md_views(items@);
                items.push(item);
                proof {
                    assert(md_views(items@) =~= prev.push(md_view(item)));
                    match list_scan(ls, i + 1) {
                        Some((rest, e)) => {
                            assert(prev.push(md_view(item)) + rest =~= prev + (seq![md_view(item)] + rest));
                        },
                        None => {},
                    }
                }
                i = i + 1;
            },
            None => {
                if trim_chars(chars_of(lines[i]).as_slice()).len() == 0 {
                    end = i + 1;
                } else {
                    end = i;
                }
                assert(md_views(items@) + Seq::<MdView>::empty() =~= md_views(items@));
                ended = true;
                break;
            },
        }
    }
    if !ended {
        assert(list_scan(ls, i as int) == Some((Seq::<MdView>::empty(), i as int)));
        assert(md_views(items@) + Seq::<MdView>::empty() =~= md_views(items@));
        end = i;
    }
    if items.len() == 0 {
        None
    } else {
        Some((items, end))
    }
}

/// A trimmed line that a paragraph stops at: a header, a fence, a quote, a
/// horizontal rule or a list item.
pub open spec fn ends_paragraph(t: Seq<char>) -> bool {
    ||| has_prefix(t, "#"@)
    ||| has_prefix(t, "```"@)
    ||| has_prefix(t, ">"@)
    ||| regex_matches(RULE_RE@, t)
    ||| regex_matches(LIST_START_RE@, t)
}

/// The first line at or after `i` that is blank or ends a paragraph.
pub open spec fn paragraph_end(ls: Seq<Seq<char>>, i: int) -> int
    decreases ls.len() - i,
{
    if i < 0 || i >= ls.len() || trim(ls[i]).len() == 0 || ends_paragraph(trim(ls[i])) {
        i
    } else {
        paragraph_end(ls, i + 1)
    }
}

/// A paragraph never ends before it starts.
pub proof fn lemma_paragraph_end(ls: Seq<Seq<char>>, i: int)
    requires
        0 <= i <= ls.len(),
    ensures
        i <= paragraph_end(ls, i) <= ls.len(),
    decreases ls.len() - i,
{
    if i < ls.len() && trim(ls[i]).len() != 0 && !ends_paragraph(trim(ls[i])) {
        lemma_paragraph_end(ls, i + 1);
    }
}

/// A paragraph starting at line `start`: its trimmed lines joined with spaces,
/// and the line after it.
pub open spec fn spec_paragraph(ls: Seq<Seq<char>>, start: int) -> Option<(MdView, int)> {
    let e = paragraph_end(ls, start);
    if e <= start {
        None
    } else {
        Some((MdView::Paragraph(space_joined(ls.subrange(start, e).map_values(|l: Seq<char>| trim(l)))), e))
    }
}

/// Whether a trimmed line ends a paragraph.
fn line_ends_paragraph(t: &Vec<char>) -> (r: bool)
    ensures
        r == ends_paragraph(t@),
{
    proof {
        reveal_strlit("#");
        reveal_strlit("```");
        reveal_strlit(">");
    }
    let s = string_of(t.as_slice());
    crate::text::starts_with(t.as_slice(), chars_of("#").as_slice()) || crate::text::starts_with(
        t.as_slice(),
        chars_of("```").as_slice(),
    ) || crate::text::starts_with(t.as_slice(), chars_of(">").as_slice()) || regex_is_match(RULE_RE, s.as_str())
        || regex_is_match(LIST_START_RE, s.as_str())
}

/// Reads a paragraph (consecutive lines that are neither blank nor special).
pub fn parse_paragraph(lines: &[&str], start_idx: usize) -> (r: Option<(MarkdownElement, usize)>)
    requires
        start_idx <= lines.len(),
    ensures
        match spec_paragraph(line_texts(lines@), start_idx as int) {
            Some((p, next)) => r matches Some((e, n)) && md_view(e) == p && n == next,
            None => r is None,
        },
{
    let ghost ls = line_texts(lines@);
    let mut joined: Vec<char> = Vec::new();
    let mut i = start_idx;
    while i < lines.len()
        invariant
            start_idx <= i <= lines.len(),
            ls == line_texts(lines@),
            paragraph_end(ls, start_idx as int) == paragraph_end(ls, i as int),
            joined@ == space_joined(ls.subrange(start_idx as int, i as int).map_values(|l: Seq<char>| trim(l))),
        ensures
            start_idx <= i <= lines.len(),
            i == paragraph_end(ls, start_idx as int),
            joined@ == space_joined(ls.subrange(start_idx as int, i as int).map_values(|l: Seq<char>| trim(l))),
        decreases lines.len() - i,
    {
        let t = trim_chars(chars_of(lines[i]).as_slice());
        assert(t@ == trim(ls[i as int]));
        if t.len() == 0 || line_ends_paragraph(&t) {
            break;
        }
        if i > start_idx {
            joined.push(' ');
        }
        append_chars(&mut joined, t.as_slice());
        proof {
            let parts = ls.subrange(start_idx as int, i + 1).map_values(|l: Seq<char>| trim(l));
            assert(parts.drop_last() =~= ls.subrange(start_idx as int, i as int).map_values(|l: Seq<char>| trim(l)));
            assert(parts.last() == t@);
            if i == start_idx {
                assert(parts.drop_last() =~= Seq::<Seq<char>>::empty());
            }
        }
        i = i + 1;
    }
    if i == start_idx {
        None
    } else {
        Some((MarkdownElement::Paragraph { text: string_of(joined.as_slice()) }, i))
    }
}

/// The closing fence is never before where the search starts.
pub proof fn lemma_closing_fence(ls: Seq<Seq<char>>, i: int)
    requires
        0 <= i <= ls.len(),
    ensures
        i <= closing_fence(ls, i) <= ls.len(),
    decreases ls.len() - i,
{
    if i < ls.len() && !has_prefix(trim(ls[i]), "```"@) {
        lemma_closing_fence(ls, i + 1);
    }
}

/// A run of quoted lines never ends before it starts.
pub proof fn lemma_quote_end(ls: Seq<Seq<char>>, i: int)
    requires
        0 <= i <= ls.len(),
    ensures
        i <= quote_end(ls, i) <= ls.len(),
    decreases ls.len() - i,
{
    if i < ls.len() && is_quote_line(ls[i]) {
        lemma_quote_end(ls, i + 1);
    }
}

/// The elements the line `i` starts, and the line after them: a blank line
/// gives none; then, in this order, a header, a horizontal rule, a closed
/// fenced code block, a block quote, list items, a paragraph; a line that is
/// none of these gives none.
pub open spec fn step_at(ls: Seq<Seq<char>>, i: int) -> (Seq<MdView>, int) {
    let line = trim(ls[i]);
    if line.len() == 0 {
        (Seq::empty(), i + 1)
    } else if spec_header(line) is Some {
        (seq![spec_header(line)->0], i + 1)
    } else if regex_matches(RULE_RE@, line) {
        (seq![MdView::HorizontalRule], i + 1)
    } else if has_prefix(line, "```"@) && spec_code_block(ls, i) is Some {
        let (lang, content, next) = spec_code_block(ls, i)->0;
        (seq![MdView::CodeBlock(lang, content)], next)
    } else if has_prefix(line, ">"@) && spec_block_quote(ls, i) is Some {
        let (text, next) = spec_block_quote(ls, i)->0;
        (seq![MdView::BlockQuote(text)], next)
    } else if spec_list(ls, i) is Some {
        spec_list(ls, i)->0
    } else if spec_paragraph(ls, i) is Some {
        let (p, next) = spec_paragraph(ls, i)->0;
        (seq![p], next)
    } else {
        (Seq::empty(), i + 1)
    }
}

/// Each step moves past its line.
pub proof fn lemma_step_advances(ls: Seq<Seq<char>>, i: int)
    requires
        0 <= i < ls.len(),
    ensures
        i < step_at(ls, i).1 <= ls.len(),
{
    reveal_strlit(">");
    let line = trim(ls[i]);
    if line.len() == 0 || spec_header(line) is Some || regex_matches(RULE_RE@, line) {
    } else if has_prefix(line, "```"@) && spec_code_block(ls, i) is Some {
        lemma_closing_fence(ls, i + 1);
    } else if has_prefix(line, ">"@) && spec_block_quote(ls, i) is Some {
        assert(line.subrange(0, 1)[0] == line[0]);
        assert(">"@[0] == '>');
        assert(is_quote_line(ls[i]));
        lemma_quote_end(ls, i + 1);
        assert(quote_end(ls, i) == quote_end(ls, i + 1));
    } else if spec_list(ls, i) is Some {
        lemma_list_scan_end(ls, i);
    } else if spec_paragraph(ls, i) is Some {
        lemma_paragraph_end(ls, i);
    }
}

/// The elements of the lines from `i` on, step by step.
pub open spec fn structure_from(ls: Seq<Seq<char>>, i: int) -> Seq<MdView>
    decreases ls.len() - i,
{
    if i < 0 || i >= ls.len() {
        Seq::empty()
    } else {
        proof {
            lemma_step_advances(ls, i);
        }
        step_at(ls, i).0 + structure_from(ls, step_at(ls, i).1)
    }
}

/// Moves elements to the end of `out`.
fn append_elements(out: &mut Vec<MarkdownElement>, items: Vec<MarkdownElement>)
    ensures
        md_views(final(out)@) == md_views(old(out)@) + md_views(items@),
{
    let ghost before = md_views(out@);
    let ghost iv = md_views(items@);
    let mut items = items;
    let mut k: usize = 0;
    let n = items.len();
    while items.len() > 0
        invariant
            k + items.len() == n,
            n == iv.len(),
            md_views(items@) == iv.subrange(k as int, n as int),
            md_views(out@) == before + iv.take(k as int),
        decreases items.len(),
    {
        let ghost olditems = items@;
        let e = items.remove(0);
        assert(e == olditems[0]);
        assert(md_views(olditems)[0] == md_view(olditems[0]));
        assert(items@ =~= olditems.subrange(1, olditems.len() as int));
        assert(md_views(items@) =~= md_views(olditems).subrange(1, olditems.len() as int));
        let ghost prev = md_views(out@);
        out.push(e);
        proof {
            assert(md_view(e) == iv[k as int]);
            assert(md_views(out@) =~= prev.push(md_view(e)));
            assert(iv.take(k + 1) =~= iv.take(k as int).push(iv[k as int]));
        }
        k = k + 1;
        assert(md_views(items@) =~= iv.subrange(k as int, n as int));
    }
    assert(iv.take(k as int) =~= iv);
}

/// The elements the line `i` starts, and the line after them.
fn parse_step(lines: &[&str], i: usize) -> (r: (Vec<MarkdownElement>, usize))
    requires
        i < lines.len(),
    ensures
        (md_views(r.0@), r.1 as int) == step_at(line_texts(lines@), i as int),
{
    let ghost ls = line_texts(lines@);
    let t = trim_chars(chars_of(lines[i]).as_slice());
    assert(t@ == trim(ls[i as int]));
    let mut out: Vec<MarkdownElement> = Vec::new();
    if t.len() == 0 {
        assert(md_views(out@) =~= Seq::<MdView>::empty());
        return (out, i + 1);
    }
    let line = string_of(t.as_slice());
    if let Some(h) = parse_header(line.as_str()) {
        out.push(h);
        assert(md_views(out@) =~= seq![md_view(h)]);
        return (out, i + 1);
    }
    if regex_is_match(RULE_RE, line.as_str()) {
        let h = MarkdownElement::HorizontalRule;
        out.push(h);
        assert(md_views(out@) =~= seq![md_view(h)]);
        return (out, i + 1);
    }
    let fence = t.len() >= 3 && t[0] == '`' && t[1] == '`' && t[2] == '`';
    proof {
        reveal_strlit("```");
        assert("```"@ =~= seq!['`', '`', '`']);
        if t@.len() >= 3 {
            assert(t@.subrange(0, 3) =~= seq![t@[0], t@[1], t@[2]]);
        }
        assert(fence == has_prefix(t@, "```"@));
    }
    if fence {
        if let Some((block, next)) = parse_code_block(lines, i) {
            out.push(block);
            assert(md_views(out@) =~= seq![md_view(block)]);
            return (out, next);
        }
    }
    let quote = t[0] == '>';
    proof {
        reveal_strlit(">");
        assert(">"@ =~= seq!['>']);
        assert(t@.subrange(0, 1) =~= seq![t@[0]]);
        assert(seq![t@[0]][0] == t@[0]);
        assert(quote == has_prefix(t@, ">"@));
    }
    if quote {
        if let Some((block, next)) = parse_block_quote(lines, i) {
            out.push(block);
            assert(md_views(out@) =~= seq![md_view(block)]);
            return (out, next);
        }
    }
    if let Some((items, next)) = parse_list(lines, i) {
        return (items, next);
    }
    if let Some((p, next)) = parse_paragraph(lines, i) {
        out.push(p);
        assert(md_views(out@) =~= seq![md_view(p)]);
        return (out, next);
    }
    assert(md_views(out@) =~= Seq::<MdView>::empty());
    (out, i + 1)
}

/// The elements of markdown lines.
pub fn parse_markdown_lines(lines: &[&str]) -> (r: Vec<MarkdownElement>)
    ensures
        md_views(r@) == structure_from(line_texts(lines@), 0),
{
    let ghost ls = line_texts(lines@);
    let mut out: Vec<MarkdownElement> = Vec::new();
    let mut i: usize = 0;
    while i < lines.len()
        invariant
            i <= lines.len(),
            ls == line_texts(lines@),
            md_views(out@) + structure_from(ls, i as int) == structure_from(ls, 0),
        decreases lines.len() - i,
    {
        let ghost before = md_views(out@);
        proof {
            lemma_step_advances(ls, i as int);
        }
        let (els, next) = parse_step(lines, i);
        append_elements(&mut out, els);
        proof {
            assert(structure_from(ls, i as int) == md_views(els@) + structure_from(ls, next as int));
            assert(before + md_views(els@) + structure_from(ls, next as int) =~= before + (md_views(els@) + structure_from(ls, next as int)));
        }
        i = next;
    }
    assert(md_views(out@) + Seq::<MdView>::empty() =~= md_views(out@));
    out
}

/// The elements of a markdown text, line by line (`str::lines`).
pub fn parse_markdown_structure(content: &str) -> (r: Vec<MarkdownElement>)
    ensures
        md_views(r@) == structure_from(crate::text::lines(content@), 0),
{
    let text = chars_of(content);
    let ls = crate::ini::all_lines(text.as_slice());
    let mut owned: Vec<String> = Vec::new();
    let mut i: usize = 0;
    while i < ls.len()
        invariant
            i <= ls.len(),
            crate::text::char_vecs(ls@) == crate::text::lines(content@),
            crate::pickle::strings_view(owned@) == crate::text::char_vecs(ls@).take(i as int),
        decreases ls.len() - i,
    {
        let s = string_of(ls[i].as_slice());
        let ghost prev = owned@;
        owned.push(s);
        proof {
            assert(crate::pickle::strings_view(owned@) =~= crate::pickle::strings_view(prev).push(s@));
            assert(crate::text::char_vecs(ls@).take(i + 1) =~= crate::text::char_vecs(ls@).take(i as int).push(ls@[i as int]@));
        }
        i = i + 1;
    }
    assert(crate::text::char_vecs(ls@).take(i as int) =~= crate::text::char_vecs(ls@));
    let mut refs: Vec<&str> = Vec::new();
    let mut k: usize = 0;
    while k < owned.len()
        invariant
            k <= owned.len(),
            line_texts(refs@) == crate::pickle::strings_view(owned@).take(k as int),
        decreases owned.len() - k,
    {
        let ghost prev = refs@;
        refs.push(owned[k].as_str());
        proof {
            assert(line_texts(refs@) =~= line_texts(prev).push(owned@[k as int]@));
            assert(crate::pickle::strings_view(owned@).take(k + 1) =~= crate::pickle::strings_view(owned@).take(k as int).push(owned@[k as int]@));
        }
        k = k + 1;
    }
    assert(crate::pickle::strings_view(owned@).take(k as int) =~= crate::pickle::strings_view(owned@));
    parse_markdown_lines(refs.as_slice())
}

// ---------------------------------------------------------------------------
// Structure patterns
// ---------------------------------------------------------------------------

/// The structural pattern of an element: headers by level, list items by kind
/// and word count, code blocks by language; other elements have none.
pub open spec fn element_pattern(e: MdView) -> Option<Seq<char>> {
    match e {
        MdView::Header(level, _) => Some("[HEADER_"@ + decimal(level as nat) + "]"@),
        MdView::ListItem(text, ordered) => Some(
            "[LIST_"@ + (if ordered {
                "ordered"@
            } else {
                "unordered"@
            }) + ":words="@ + decimal(words(text).len()) + "]"@,
        ),
        MdView::CodeBlock(language, _) => Some(
            "[CODE_BLOCK:lang="@ + match language {
                Some(l) => l,
                None => "unknown"@,
            } + "]"@,
        ),
        _ => None,
    }
}

/// The patterns of the elements, in order.
pub open spec fn patterns_of(es: Seq<MdView>) -> Seq<Seq<char>>
    decreases es.len(),
{
    if es.len() == 0 {
        Seq::empty()
    } else {
        patterns_of(es.drop_last()) + match element_pattern(es.last()) {
            Some(p) => seq![p],
            None => Seq::empty(),
        }
    }
}

/// How many times `p` occurs in `ps`.
pub open spec fn occurrences_of(ps: Seq<Seq<char>>, p: Seq<char>) -> nat
    decreases ps.len(),
{
    if ps.len() == 0 {
        0
    } else {
        occurrences_of(ps.drop_last(), p) + if ps.last() == p {
            1nat
        } else {
            0nat
        }
    }
}

/// The distinct patterns in order of first occurrence.
pub open spec fn first_seen(ps: Seq<Seq<char>>) -> Seq<Seq<char>>
    decreases ps.len(),
{
    if ps.len() == 0 {
        Seq::empty()
    } else if first_seen(ps.drop_last()).contains(ps.last()) {
        first_seen(ps.drop_last())
    } else {
        first_seen(ps.drop_last()).push(ps.last())
    }
}

/// The patterns occurring at least `threshold` times, with their counts, in
/// order of first occurrence.
pub open spec fn frequent_patterns(ps: Seq<Seq<char>>, keys: Seq<Seq<char>>, threshold: nat) -> Seq<(Seq<char>, nat)>
    decreases keys.len(),
{
    if keys.len() == 0 {
        Seq::empty()
    } else {
        let r = frequent_patterns(ps, keys.drop_last(), threshold);
        let c = occurrences_of(ps, keys.last());
        if c >= threshold {
            r.push((keys.last(), c))
        } else {
            r
        }
    }
}

/// The pattern of an element.
fn pattern_of(e: &MarkdownElement) -> (r: Option<String>)
    ensures
        crate::pickle::opt_text(r) == element_pattern(md_view(*e)),
{
    proof {
        reveal_strlit("[HEADER_");
        reveal_strlit("]");
        reveal_strlit("[LIST_");
        reveal_strlit("ordered");
        reveal_strlit("unordered");
        reveal_strlit(":words=");
        reveal_strlit("[CODE_BLOCK:lang=");
        reveal_strlit("unknown");
    }
    match e {
        MarkdownElement::Header { level, .. } => {
            let mut v = chars_of("[HEADER_");
            append_chars(&mut v, decimal_chars(*level).as_slice());
            append_chars(&mut v, chars_of("]").as_slice());
            Some(string_of(v.as_slice()))
        },
        MarkdownElement::ListItem { text, ordered } => {
            let mut v = chars_of("[LIST_");
            if *ordered {
                append_chars(&mut v, chars_of("ordered").as_slice());
            } else {
                append_chars(&mut v, chars_of("unordered").as_slice());
            }
            append_chars(&mut v, chars_of(":words=").as_slice());
            let n = split_words(text.as_str()).len();
            append_chars(&mut v, decimal_chars(n).as_slice());
            append_chars(&mut v, chars_of("]").as_slice());
            Some(string_of(v.as_slice()))
        },
        MarkdownElement::CodeBlock { language, .. } => {
            let mut v = chars_of("[CODE_BLOCK:lang=");
            match language {
                Some(l) => append_chars(&mut v, chars_of(l.as_str()).as_slice()),
                None => append_chars(&mut v, chars_of("unknown").as_slice()),
            }
            append_chars(&mut v, chars_of("]").as_slice());
            Some(string_of(v.as_slice()))
        },
        _ => None,
    }
}

/// The structural patterns of the elements that occur at least `threshold`
/// times, with their counts, in order of first occurrence.
pub fn extract_structure_patterns(elements: &[MarkdownElement], threshold: usize) -> (r: Vec<(String, usize)>)
    ensures
        r@.map_values(|e: (String, usize)| (e.0@, e.1 as nat)) == ({
            let ps = patterns_of(md_views(elements@));
            frequent_patterns(ps, first_seen(ps), threshold as nat)
        }),
{
    let ghost ev = md_views(elements@);
    let mut ps: Vec<String> = Vec::new();
    let mut i: usize = 0;
    while i < elements.len()
        invariant
            i <= elements.len(),
            ev == md_views(elements@),
            ps@.len() <= i,
            crate::pickle::strings_view(ps@) == patterns_of(ev.take(i as int)),
        decreases elements.len() - i,
    {
        assert(ev.take(i + 1).drop_last() =~= ev.take(i as int));
        assert(ev.take(i + 1).last() == md_view(elements@[i as int]));
        let ghost prev = crate::pickle::strings_view(ps@);
        match pattern_of(&elements[i]) {
            Some(p) => {
                ps.push(p);
                assert(crate::pickle::strings_view(ps@) =~= prev + seq![p@]);
            },
            None => {
                assert(prev + Seq::<Seq<char>>::empty() =~= prev);
            },
        }
        i = i + 1;
    }
    assert(ev.take(i as int) =~= ev);
    let ghost pv = crate::pickle::strings_view(ps@);
    let mut counts: Vec<(String, usize)> = Vec::new();
    let mut k: usize = 0;
    while k < ps.len()
        invariant
            k <= ps.len(),
            pv == crate::pickle::strings_view(ps@),
            counts@.map_values(|e: (String, usize)| e.0@) == first_seen(pv.take(k as int)),
            forall|j: int| 0 <= j < counts@.len() ==> (#[trigger] counts@[j]).1 == occurrences_of(pv.take(k as int), counts@[j].0@),
            forall|j: int| 0 <= j < counts@.len() ==> (#[trigger] counts@[j]).1 <= k,
        decreases ps.len() - k,
    {
        let ghost t = pv.take(k + 1);
        assert(t.drop_last() =~= pv.take(k as int));
        assert(t.last() == ps@[k as int]@);
        let mut j: usize = 0;
        while j < counts.len() && counts[j].0 != ps[k]
            invariant
                j <= counts.len(),
                k < ps.len(),
                forall|m: int| 0 <= m < j ==> (#[trigger] counts@[m]).0@ != ps@[k as int]@,
            decreases counts.len() - j,
        {
            j = j + 1;
        }
        let ghost keys = counts@.map_values(|e: (String, usize)| e.0@);
        if j < counts.len() {
            proof {
                assert(keys[j as int] == ps@[k as int]@);
                assert(first_seen(pv.take(k as int)).contains(t.last()));
            }
            let (name, c) = counts.remove(j);
            counts.insert(j, (name, c + 1));
            proof {
                assert(counts@.map_values(|e: (String, usize)| e.0@) =~= keys);
                assert forall|m: int| 0 <= m < counts@.len() implies (#[trigger] counts@[m]).1 == occurrences_of(t, counts@[m].0@) by {
                    if m != j {
                        assert(counts@[m].0@ != ps@[k as int]@) by {
                            lemma_first_seen_distinct(pv.take(k as int));
                            assert(keys[m] != keys[j as int]);
                        }
                    }
                }
            }
        } else {
            proof {
                assert(!first_seen(pv.take(k as int)).contains(t.last())) by {
                    if first_seen(pv.take(k as int)).contains(t.last()) {
                        let m = choose|m: int| 0 <= m < keys.len() && keys[m] == t.last();
                        assert(counts@[m].0@ == ps@[k as int]@);
                    }
                }
                lemma_occurrences_absent(pv.take(k as int), t.last());
            }
            let entry = (ps[k].clone(), 1usize);
            counts.push(entry);
            proof {
                assert(counts@.map_values(|e: (String, usize)| e.0@) =~= keys.push(t.last()));
                assert forall|m: int| 0 <= m < counts@.len() implies (#[trigger] counts@[m]).1 == occurrences_of(t, counts@[m].0@) by {
                    if m < keys.len() {
                        assert(counts@[m].0@ != ps@[k as int]@);
                    }
                }
            }
        }
        k = k + 1;
    }
    assert(pv.take(k as int) =~= pv);
    let ghost keys = counts@.map_values(|e: (String, usize)| e.0@);
    let mut r: Vec<(String, usize)> = Vec::new();
    let mut m: usize = 0;
    while m < counts.len()
        invariant
            m <= counts.len(),
            keys == counts@.map_values(|e: (String, usize)| e.0@),
            keys == first_seen(pv),
            forall|j: int| 0 <= j < counts@.len() ==> (#[trigger] counts@[j]).1 == occurrences_of(pv, counts@[j].0@),
            r@.map_values(|e: (String, usize)| (e.0@, e.1 as nat)) == frequent_patterns(pv, keys.take(m as int), threshold as nat),
        decreases counts.len() - m,
    {
        assert(keys.take(m + 1).drop_last() =~= keys.take(m as int));
        assert(keys.take(m + 1).last() == counts@[m as int].0@);
        if counts[m].1 >= threshold {
            let entry = (counts[m].0.clone(), counts[m].1);
            let ghost prev = r@;
            r.push(entry);
            assert(r@.map_values(|e: (String, usize)| (e.0@, e.1 as nat)) =~= prev.map_values(|e: (String, usize)| (e.0@, e.1 as nat)).push(
                (entry.0@, entry.1 as nat),
            ));
        }
        m = m + 1;
    }
    assert(keys.take(m as int) =~= keys);
    r
}

proof fn lemma_first_seen_distinct(ps: Seq<Seq<char>>)
    ensures
        first_seen(ps).no_duplicates(),
    decreases ps.len(),
{
    if ps.len() > 0 {
        lemma_first_seen_distinct(ps.drop_last());
        let f = first_seen(ps.drop_last());
        if !f.contains(ps.last()) {
            assert forall|i: int, j: int| 0 <= i < f.push(ps.last()).len() && 0 <= j < f.push(ps.last()).len() && i != j implies f.push(
                ps.last(),
            )[i] != f.push(ps.last())[j] by {
                if i < f.len() && j < f.len() {
                } else if i < f.len() {
                    assert(f.contains(f[i]));
                } else {
                    assert(f.contains(f[j]));
                }
            }
        }
    }
}

proof fn lemma_occurrences_absent(ps: Seq<Seq<char>>, p: Seq<char>)
    requires
        !first_seen(ps).contains(p),
    ensures
        occurrences_of(ps, p) == 0,
    decreases ps.len(),
{
    if ps.len() > 0 {
        let f = first_seen(ps.drop_last());
        if f.contains(p) {
            if !f.contains(ps.last()) {
                let m = choose|m: int| 0 <= m < f.len() && f[m] == p;
                assert(f.push(ps.last())[m] == p);
            }
        } else {
            lemma_occurrences_absent(ps.drop_last(), p);
            if ps.last() == p {
                if !f.contains(ps.last()) {
                    assert(f.push(ps.last())[f.len() as int] == p);
                }
            }
        }
    }
}

// ---------------------------------------------------------------------------
// Laws
// ---------------------------------------------------------------------------

/// `k` header marks.
pub open spec fn hash_marks(k: nat) -> Seq<char> {
    Seq::new(k, |i: int| '#')
}

/// Law: a header opened by `k` marks (one to six `#`) has level exactly `k`,
/// its text is what follows the whitespace after the marks, and its
/// structural pattern is `[HEADER_k]`.
pub proof fn law_header_level_is_mark_count(line: Seq<char>, k: nat)
    requires
        1 <= k <= 6,
        regex_group(HEADER_RE@, line, 1) == Some(hash_marks(k)),
        regex_group(HEADER_RE@, line, 2) is Some,
    ensures
        spec_header(line) == Some(MdView::Header(k as usize, regex_group(HEADER_RE@, line, 2)->0)),
        element_pattern(spec_header(line)->0) == Some("[HEADER_"@ + decimal(k) + "]"@),
{
    let m = hash_marks(k);
    assert(vstd::utf8::is_ascii_chars(m));
    vstd::utf8::is_ascii_chars_encode_utf8(m);
}

} // verus!
