//! INI / `.cfg` files: a line-based reader for `[section]` headers, `key=value`
//! pairs, `;`/`#` comments, and indented continuation lines after an empty `key=`.

use vstd::prelude::*;
use vstd::utf8::{decode_utf8, valid_utf8};

use crate::text::{
    char_vecs, chars_of, copy_range, first_lines, has_prefix, has_suffix, is_space, lines,
    lines_from, next_newline, line_body, string_of, trim, trim_chars, utf8_str, join_text,
    utf8_error_message, utf8_error_text,
};

verus! {

// ---------------------------------------------------------------------------
// Specifications
// ---------------------------------------------------------------------------

/// One committed assignment: section, key, value.
pub type Assignment = (Seq<char>, Seq<char>, Seq<char>);

/// The section → key → value map that a list of assignments builds; later
/// assignments to the same key win.
pub open spec fn sections_map(log: Seq<Assignment>) -> Map<Seq<char>, Map<Seq<char>, Seq<char>>>
    decreases log.len(),
{
    if log.len() == 0 {
        Map::empty()
    } else {
        let m = sections_map(log.drop_last());
        let (sec, key, value) = log.last();
        let inner = if m.contains_key(sec) {
            m[sec]
        } else {
            Map::empty()
        };
        m.insert(sec, inner.insert(key, value))
    }
}

/// Reader state between two lines.
pub struct IniState {
    pub log: Seq<Assignment>,
    pub section_count: nat,
    pub key_count: nat,
    pub comment_count: nat,
    pub current: Seq<char>,
    pub in_multiline: bool,
    pub multiline_key: Seq<char>,
    pub multiline_value: Seq<char>,
}

/// State before the first line.
pub open spec fn ini_start() -> IniState {
    IniState {
        log: Seq::empty(),
        section_count: 0,
        key_count: 0,
        comment_count: 0,
        current: Seq::empty(),
        in_multiline: false,
        multiline_key: Seq::empty(),
        multiline_value: Seq::empty(),
    }
}

/// A trimmed line that starts with `;` or `#`.
pub open spec fn is_comment_line(t: Seq<char>) -> bool {
    t.len() > 0 && (t[0] == ';' || t[0] == '#')
}

/// A trimmed line of the form `[...]`.
pub open spec fn is_section_line(t: Seq<char>) -> bool {
    t.len() > 0 && t[0] == '[' && t.last() == ']'
}

/// A raw line that starts with a space or a tab.
pub open spec fn is_continuation(line: Seq<char>) -> bool {
    line.len() > 0 && (line[0] == ' ' || line[0] == '\t')
}

/// Name inside `[...]`, trimmed.
pub open spec fn section_name(t: Seq<char>) -> Seq<char> {
    trim(t.subrange(1, t.len() - 1))
}

/// Index of the first `'='`, if any.
pub open spec fn first_eq(t: Seq<char>) -> Option<int> {
    if exists|i: int| 0 <= i < t.len() && t[i] == '=' {
        Some(choose|i: int| 0 <= i < t.len() && t[i] == '=' && forall|j: int| 0 <= j < i ==> t[j] != '=')
    } else {
        None
    }
}

/// Ends a pending multi-line value, committing it.
pub open spec fn commit_pending(st: IniState) -> IniState {
    IniState {
        log: st.log.push((st.current, st.multiline_key, st.multiline_value)),
        in_multiline: false,
        ..st
    }
}

/// A line read outside a multi-line value.
pub open spec fn plain_line(st: IniState, line: Seq<char>) -> IniState {
    let t = trim(line);
    if t.len() == 0 {
        st
    } else if is_comment_line(t) {
        IniState { comment_count: st.comment_count + 1, ..st }
    } else if is_section_line(t) {
        IniState { section_count: st.section_count + 1, current: section_name(t), ..st }
    } else {
        match first_eq(t) {
            Some(eq) => {
                let key = trim(t.subrange(0, eq));
                let value = trim(t.subrange(eq + 1, t.len() as int));
                if value.len() == 0 {
                    IniState {
                        key_count: st.key_count + 1,
                        in_multiline: true,
                        multiline_key: key,
                        multiline_value: Seq::empty(),
                        ..st
                    }
                } else {
                    IniState {
                        key_count: st.key_count + 1,
                        log: st.log.push((st.current, key, value)),
                        ..st
                    }
                }
            },
            None => st,
        }
    }
}

/// One line of input.
pub open spec fn ini_line(st: IniState, line: Seq<char>) -> IniState {
    if st.in_multiline {
        let t = trim(line);
        if t.len() == 0 {
            commit_pending(st)
        } else if is_comment_line(t) {
            IniState { comment_count: st.comment_count + 1, ..commit_pending(st) }
        } else if is_section_line(t) {
            IniState {
                section_count: st.section_count + 1,
                current: section_name(t),
                ..commit_pending(st)
            }
        } else if is_continuation(line) {
            IniState {
                multiline_value: (if st.multiline_value.len() == 0 {
                    st.multiline_value
                } else {
                    st.multiline_value.push('\n')
                }) + line,
                ..st
            }
        } else {
            plain_line(commit_pending(st), line)
        }
    } else {
        plain_line(st, line)
    }
}

/// State after reading `ls` in order.
pub open spec fn ini_lines(ls: Seq<Seq<char>>) -> IniState
    decreases ls.len(),
{
    if ls.len() == 0 {
        ini_start()
    } else {
        ini_line(ini_lines(ls.drop_last()), ls.last())
    }
}

/// State after reading all of `s`, with a value still pending at the end committed.
pub open spec fn ini_parse(s: Seq<char>) -> IniState {
    let st = ini_lines(lines(s));
    if st.in_multiline {
        commit_pending(st)
    } else {
        st
    }
}

// ---------------------------------------------------------------------------
// Executable reader
// ---------------------------------------------------------------------------

/// Markers and delimiters of INI syntax.
pub struct IniSyntax {
    pub comment_semicolon: char,
    pub comment_hash: char,
    pub section_start: char,
    pub section_end: char,
    pub key_value_sep: char,
}

impl IniSyntax {
    /// The standard markers: `;` and `#` comments, `[`/`]` sections, `=` separator.
    pub fn new() -> (r: Self)
        ensures
            r.comment_semicolon == ';',
            r.comment_hash == '#',
            r.section_start == '[',
            r.section_end == ']',
            r.key_value_sep == '=',
    {
        IniSyntax {
            comment_semicolon: ';',
            comment_hash: '#',
            section_start: '[',
            section_end: ']',
            key_value_sep: '=',
        }
    }

    /// Whether a trimmed line is a comment.
    pub fn is_comment(&self, trimmed: &[char]) -> (b: bool)
        requires
            self.comment_semicolon == ';',
            self.comment_hash == '#',
        ensures
            b == is_comment_line(trimmed@),
    {
        trimmed.len() > 0 && (trimmed[0] == self.comment_semicolon || trimmed[0]
            == self.comment_hash)
    }

    /// Whether a trimmed line is a section header.
    pub fn is_section(&self, trimmed: &[char]) -> (b: bool)
        requires
            self.section_start == '[',
            self.section_end == ']',
        ensures
            b == is_section_line(trimmed@),
    {
        trimmed.len() > 0 && trimmed[0] == self.section_start && trimmed[trimmed.len() - 1]
            == self.section_end
    }
}

/// Whether a raw line continues a multi-line value (leading space or tab).
pub fn is_continuation_line(line: &[char]) -> (b: bool)
    ensures
        b == is_continuation(line@),
{
    line.len() > 0 && (line[0] == ' ' || line[0] == '\t')
}

/// A committed assignment.
pub struct IniEntry {
    pub section: String,
    pub key: String,
    pub value: String,
}

/// The texts of a list of assignments.
pub open spec fn entries_view(v: Seq<IniEntry>) -> Seq<Assignment> {
    v.map_values(|e: IniEntry| (e.section@, e.key@, e.value@))
}

/// Commits `key = value` to section `current`.
pub fn commit_multiline_kv(log: &mut Vec<IniEntry>, current: &[char], key: &[char], value: &[char])
    ensures
        entries_view(final(log)@) == entries_view(old(log)@).push((current@, key@, value@)),
{
    let e = IniEntry { section: string_of(current), key: string_of(key), value: string_of(value) };
    log.push(e);
    assert(entries_view(log@) =~= entries_view(old(log)@).push((current@, key@, value@)));
}

/// Index of the first `c` in `s`.
fn find_char(s: &[char], c: char) -> (r: Option<usize>)
    ensures
        c == '=' ==> (match r {
            Some(i) => first_eq(s@) == Some(i as int),
            None => first_eq(s@) is None,
        }),
        r matches Some(i) ==> i < s.len() && s@[i as int] == c && forall|j: int|
            0 <= j < i ==> s@[j] != c,
        r is None ==> forall|j: int| 0 <= j < s.len() ==> s@[j] != c,
{
    let mut i: usize = 0;
    while i < s.len()
        invariant
            i <= s.len(),
            forall|j: int| 0 <= j < i ==> s@[j] != c,
        decreases s.len() - i,
    {
        if s[i] == c {
            proof {
                if c == '=' {
                    let w = choose|k: int|
                        0 <= k < s@.len() && s@[k] == '=' && forall|j: int| 0 <= j < k ==> s@[j] != '=';
                    assert(w == i) by {
                        if w < i {
                        } else if w > i {
                        }
                    }
                }
            }
            return Some(i);
        }
        i = i + 1;
    }
    None
}

/// All lines of `s` (`str::lines`).
pub fn all_lines(s: &[char]) -> (out: Vec<Vec<char>>)
    ensures
        char_vecs(out@) == lines(s@),
{
    let mut out: Vec<Vec<char>> = Vec::new();
    let mut i: usize = 0;
    let ghost all = lines(s@);
    while i < s.len()
        invariant
            i <= s.len(),
            all == lines(s@),
            all == char_vecs(out@) + lines_from(s@, i as int),
        decreases s.len() - i,
    {
        let e = find_newline_at(s, i);
        let body_end = if e < s.len() && e > i && s[e - 1] == '\r' {
            e - 1
        } else {
            e
        };
        let line = copy_range(s, i, body_end);
        let ghost before = char_vecs(out@);
        assert(line@ == line_body(s@, i as int, e as int));
        out.push(line);
        assert(char_vecs(out@) =~= before.push(line@));
        if e >= s.len() {
            assert(lines_from(s@, i as int) == seq![line@]);
            i = s.len();
            assert(lines_from(s@, i as int) =~= Seq::<Seq<char>>::empty());
            assert(all =~= char_vecs(out@) + lines_from(s@, i as int));
        } else {
            assert(lines_from(s@, i as int) == seq![line@] + lines_from(s@, e + 1));
            i = e + 1;
            assert(all =~= char_vecs(out@) + lines_from(s@, i as int));
        }
    }
    assert(lines_from(s@, i as int) =~= Seq::<Seq<char>>::empty());
    assert(all =~= char_vecs(out@));
    out
}

/// Index of the first `'\n'` at or after `i`, or `s.len()`.
fn find_newline_at(s: &[char], i: usize) -> (e: usize)
    requires
        i <= s.len(),
    ensures
        e as int == next_newline(s@, i as int),
        i <= e <= s.len(),
    decreases s.len() - i,
{
    if i >= s.len() {
        i
    } else if s[i] == '\n' {
        i
    } else {
        find_newline_at(s, i + 1)
    }
}

/// Counts and committed assignments of an INI text.
pub struct IniParse {
    pub section_count: usize,
    pub key_count: usize,
    pub comment_count: usize,
    pub entries: Vec<IniEntry>,
}

/// Mutable reader state.
struct IniCursor {
    section_count: usize,
    key_count: usize,
    comment_count: usize,
    log: Vec<IniEntry>,
    current: Vec<char>,
    in_multiline: bool,
    multiline_key: Vec<char>,
    multiline_value: Vec<char>,
}

impl View for IniCursor {
    type V = IniState;

    closed spec fn view(&self) -> IniState {
        IniState {
            log: entries_view(self.log@),
            section_count: self.section_count as nat,
            key_count: self.key_count as nat,
            comment_count: self.comment_count as nat,
            current: self.current@,
            in_multiline: self.in_multiline,
            multiline_key: self.multiline_key@,
            multiline_value: self.multiline_value@,
        }
    }
}

impl IniCursor {
    /// Commits the pending multi-line value.
    fn commit(&mut self)
        ensures
            final(self)@ == commit_pending(old(self)@),
    {
        commit_multiline_kv(
            &mut self.log,
            self.current.as_slice(),
            self.multiline_key.as_slice(),
            self.multiline_value.as_slice(),
        );
        self.in_multiline = false;
    }

    /// A line read outside a multi-line value.
    fn plain(&mut self, line: &[char], syntax: &IniSyntax)
        requires
            old(self).section_count < usize::MAX,
            old(self).key_count < usize::MAX,
            old(self).comment_count < usize::MAX,
            syntax.comment_semicolon == ';',
            syntax.comment_hash == '#',
            syntax.section_start == '[',
            syntax.section_end == ']',
            syntax.key_value_sep == '=',
        ensures
            final(self)@ == plain_line(old(self)@, line@),
            final(self).section_count <= old(self).section_count + 1,
            final(self).key_count <= old(self).key_count + 1,
            final(self).comment_count <= old(self).comment_count + 1,
    {
        let trimmed = trim_chars(line);
        if trimmed.len() == 0 {
            return;
        }
        if syntax.is_comment(trimmed.as_slice()) {
            self.comment_count = self.comment_count + 1;
            return;
        }
        if syntax.is_section(trimmed.as_slice()) {
            self.section_count = self.section_count + 1;
            let inner = copy_range(trimmed.as_slice(), 1, trimmed.len() - 1);
            self.current = trim_chars(inner.as_slice());
            return;
        }
        match find_char(trimmed.as_slice(), syntax.key_value_sep) {
            Some(eq) => {
                self.key_count = self.key_count + 1;
                let k = copy_range(trimmed.as_slice(), 0, eq);
                let v = copy_range(trimmed.as_slice(), eq + 1, trimmed.len());
                let key = trim_chars(k.as_slice());
                let value = trim_chars(v.as_slice());
                if value.len() == 0 {
                    self.in_multiline = true;
                    self.multiline_key = key;
                    self.multiline_value = Vec::new();
                    assert(self@.multiline_value =~= Seq::<char>::empty());
                    return;
                }
                commit_multiline_kv(
                    &mut self.log,
                    self.current.as_slice(),
                    key.as_slice(),
                    value.as_slice(),
                );
            },
            None => {},
        }
    }

    /// One line of input.
    fn line(&mut self, line: &[char], syntax: &IniSyntax)
        requires
            old(self).section_count < usize::MAX,
            old(self).key_count < usize::MAX,
            old(self).comment_count < usize::MAX,
            syntax.comment_semicolon == ';',
            syntax.comment_hash == '#',
            syntax.section_start == '[',
            syntax.section_end == ']',
            syntax.key_value_sep == '=',
        ensures
            final(self)@ == ini_line(old(self)@, line@),
            final(self).section_count <= old(self).section_count + 1,
            final(self).key_count <= old(self).key_count + 1,
            final(self).comment_count <= old(self).comment_count + 1,
    {
        if self.in_multiline {
            let trimmed = trim_chars(line);
            if trimmed.len() == 0 {
                self.commit();
                return;
            }
            if syntax.is_comment(trimmed.as_slice()) {
                self.commit();
                self.comment_count = self.comment_count + 1;
                return;
            }
            if syntax.is_section(trimmed.as_slice()) {
                self.commit();
                self.section_count = self.section_count + 1;
                let inner = copy_range(trimmed.as_slice(), 1, trimmed.len() - 1);
                self.current = trim_chars(inner.as_slice());
                return;
            }
            if is_continuation_line(line) {
                if self.multiline_value.len() > 0 {
                    self.multiline_value.push('\n');
                }
                crate::text::append_chars(&mut self.multiline_value, line);
                return;
            }
            self.commit();
        }
        self.plain(line, syntax);
    }
}

/// Reads an INI text: section, key and comment counts and the committed assignments
/// (a `key=` with an empty value collects the indented lines that follow, joined by
/// newlines, until an empty line, a comment, a section header or an unindented line).
#[verifier::rlimit(30)]
pub fn parse_ini_sections_map(s: &[char], syntax: &IniSyntax) -> (r: IniParse)
    requires
        syntax.comment_semicolon == ';',
        syntax.comment_hash == '#',
        syntax.section_start == '[',
        syntax.section_end == ']',
        syntax.key_value_sep == '=',
    ensures
        r.section_count == ini_parse(s@).section_count,
        r.key_count == ini_parse(s@).key_count,
        r.comment_count == ini_parse(s@).comment_count,
        entries_view(r.entries@) == ini_parse(s@).log,
{
    let ls = all_lines(s);
    let mut cur = IniCursor {
        section_count: 0,
        key_count: 0,
        comment_count: 0,
        log: Vec::new(),
        current: Vec::new(),
        in_multiline: false,
        multiline_key: Vec::new(),
        multiline_value: Vec::new(),
    };
    assert(entries_view(cur.log@) =~= Seq::<Assignment>::empty());
    assert(cur.current@ =~= Seq::<char>::empty());
    assert(cur.multiline_key@ =~= Seq::<char>::empty());
    assert(cur.multiline_value@ =~= Seq::<char>::empty());
    assert(cur@ == ini_start());
    let mut i: usize = 0;
    while i < ls.len()
        invariant
            i <= ls@.len(),
            char_vecs(ls@) == lines(s@),
            cur@ == ini_lines(char_vecs(ls@).subrange(0, i as int)),
            cur.section_count <= i,
            cur.key_count <= i,
            cur.comment_count <= i,
            syntax.comment_semicolon == ';',
            syntax.comment_hash == '#',
            syntax.section_start == '[',
            syntax.section_end == ']',
            syntax.key_value_sep == '=',
        decreases ls.len() - i,
    {
        assert(char_vecs(ls@).subrange(0, i + 1).drop_last() =~= char_vecs(ls@).subrange(
            0,
            i as int,
        ));
        cur.line(ls[i].as_slice(), syntax);
        i = i + 1;
    }
    assert(char_vecs(ls@).subrange(0, i as int) =~= lines(s@));
    if cur.in_multiline {
        cur.commit();
    }
    IniParse {
        section_count: cur.section_count,
        key_count: cur.key_count,
        comment_count: cur.comment_count,
        entries: cur.log,
    }
}

/// `Some(2)` (sections hold keys) when any assignment was committed, else `None`.
pub fn ini_schema_from_sections(entries: &Vec<IniEntry>) -> (max_depth: Option<usize>)
    ensures
        max_depth == (if entries@.len() > 0 {
            Some(2usize)
        } else {
            None
        }),
{
    if entries.len() == 0 {
        None
    } else {
        Some(2)
    }
}

/// Metadata of an INI file.
pub struct IniMetadata {
    pub file_size: Option<usize>,
    pub section_count: Option<usize>,
    pub key_count: Option<usize>,
    pub comment_count: Option<usize>,
    pub max_depth: Option<usize>,
    /// Committed assignments in file order; inserting them in order into a
    /// section → key → value map gives the file's settings.
    pub entries: Vec<IniEntry>,
}

/// INI metadata from file content; `Err` when the content is not valid UTF-8.
/// Lines are `[section]`, `key=value` (or `key = value`), or `;`/`#` comments; a `key=`
/// with an empty value collects the indented lines that follow.
pub fn extract_ini_metadata(content: &[u8], byte_count: usize) -> (r: Result<IniMetadata, String>)
    ensures
        r is Err <==> !valid_utf8(content@),
        r matches Err(e) ==> e@ == "INI must be valid UTF-8: "@ + utf8_error_text(content@),
        r matches Ok(m) ==> {
            let st = ini_parse(decode_utf8(content@));
            &&& m.file_size == Some(byte_count)
            &&& m.section_count == Some(st.section_count as usize)
            &&& m.key_count == Some(st.key_count as usize)
            &&& m.comment_count == Some(st.comment_count as usize)
            &&& entries_view(m.entries@) == st.log
            &&& m.max_depth == (if st.log.len() > 0 {
                Some(2usize)
            } else {
                None
            })
        },
{
    let s = match utf8_str(content) {
        Some(s) => s,
        None => return Err(join_text("INI must be valid UTF-8: ", utf8_error_message(content).as_str())),
    };
    let text = chars_of(s);
    let syntax = IniSyntax::new();
    let parsed = parse_ini_sections_map(text.as_slice(), &syntax);
    let max_depth = ini_schema_from_sections(&parsed.entries);
    Ok(IniMetadata {
        file_size: Some(byte_count),
        section_count: Some(parsed.section_count),
        key_count: Some(parsed.key_count),
        comment_count: Some(parsed.comment_count),
        max_depth,
        entries: parsed.entries,
    })
}

// ---------------------------------------------------------------------------
// Laws
// ---------------------------------------------------------------------------

/// Each counted key is committed once or still pending.
pub open spec fn keys_accounted(st: IniState) -> bool {
    st.key_count == st.log.len() + (if st.in_multiline {
        1nat
    } else {
        0nat
    })
}

proof fn lemma_line_keeps_keys_accounted(st: IniState, line: Seq<char>)
    requires
        keys_accounted(st),
    ensures
        keys_accounted(ini_line(st, line)),
{
}

proof fn lemma_lines_keep_keys_accounted(ls: Seq<Seq<char>>)
    ensures
        keys_accounted(ini_lines(ls)),
    decreases ls.len(),
{
    if ls.len() > 0 {
        lemma_lines_keep_keys_accounted(ls.drop_last());
        lemma_line_keeps_keys_accounted(ini_lines(ls.drop_last()), ls.last());
    }
}

/// Law: every counted key, single-line or multi-line, ends up as exactly one
/// committed assignment, so the assignments are as many as the keys.
pub proof fn law_ini_every_key_committed(s: Seq<char>)
    ensures
        ini_parse(s).log.len() == ini_parse(s).key_count,
{
    lemma_lines_keep_keys_accounted(lines(s));
}

} // verus!
