//! Delimiter-separated text (CSV, TSV, pipe-separated, …): delimiter, quote and
//! escape detection, and the header/row layout read with the `csv` crate.

use vstd::prelude::*;
use vstd::utf8::valid_utf8;

use crate::pickle::opt_text;
use crate::results::{ColumnarCommonFields, CsvEncodingLabel, CsvMetadata};
use crate::text::{
    char_vecs, chars_of, contains, copy_range, count_char, count_occurrences, first_lines, has_infix,
    lines, string_of, take_lines, utf8_str,
};

verus! {

// ---------------------------------------------------------------------------
// Specifications
// ---------------------------------------------------------------------------

/// Candidate field separators, in order of preference on ties.
pub open spec fn csv_delimiters() -> Seq<char> {
    seq![',', ';', '\t', '|', ':']
}

/// Occurrences of `c` summed over `lines`.
pub open spec fn total_count(lines: Seq<Seq<char>>, c: char) -> nat
    decreases lines.len(),
{
    if lines.len() == 0 {
        0
    } else {
        total_count(lines.drop_last(), c) + count_char(lines.last(), c)
    }
}

/// Index of the first maximal element.
pub open spec fn first_max_index(cs: Seq<nat>) -> int
    decreases cs.len(),
{
    if cs.len() <= 1 {
        0
    } else {
        let j = first_max_index(cs.drop_last());
        if cs.last() > cs[j] {
            cs.len() - 1
        } else {
            j
        }
    }
}

/// Per-delimiter counts over the first five lines.
pub open spec fn delimiter_counts(content: Seq<char>) -> Seq<nat> {
    csv_delimiters().map_values(|d: char| total_count(first_lines(content, 5), d))
}

/// The most frequent candidate separator over the first five lines (the earliest
/// candidate on ties), if it occurs at all.
pub open spec fn spec_dominant_delimiter(content: Seq<char>) -> Option<char> {
    if first_lines(content, 5).len() == 0 {
        None
    } else {
        let j = first_max_index(delimiter_counts(content));
        if delimiter_counts(content)[j] > 0 {
            Some(csv_delimiters()[j])
        } else {
            None
        }
    }
}

/// Delimiter byte for the reader: the dominant delimiter, or a comma.
pub open spec fn spec_delimiter_byte(content: Seq<char>) -> u8 {
    match spec_dominant_delimiter(content) {
        Some(c) => c as u8,
        None => 0x2c,
    }
}

/// Quote evidence in one line: half the quote count when it is even and at least
/// two, plus one when the quote touches the separator.
pub open spec fn line_quote_score(line: Seq<char>, q: char, sep: char) -> nat {
    let qc = count_char(line, q);
    (if qc >= 2 && qc % 2 == 0 {
        qc / 2
    } else {
        0nat
    }) + (if has_infix(line, seq![q, sep]) || has_infix(line, seq![sep, q]) {
        1nat
    } else {
        0nat
    })
}

/// Quote evidence summed over `lines`.
pub open spec fn quote_score(lines: Seq<Seq<char>>, q: char, sep: char) -> nat
    decreases lines.len(),
{
    if lines.len() == 0 {
        0
    } else {
        quote_score(lines.drop_last(), q, sep) + line_quote_score(lines.last(), q, sep)
    }
}

/// The quote character with the most evidence over the first ten lines (double
/// quote on ties), if there is any evidence.
pub open spec fn spec_quote_character(content: Seq<char>, sep: char) -> Option<Seq<char>> {
    let lines = first_lines(content, 10);
    if lines.len() == 0 {
        None
    } else {
        let d = quote_score(lines, '"', sep);
        let s = quote_score(lines, '\'', sep);
        if s > d {
            Some(seq!['\''])
        } else if d > 0 {
            Some(seq!['"'])
        } else {
            None
        }
    }
}

/// A line holds a backslash escape (`\"`, `\'` or `\\`).
pub open spec fn has_backslash_escape(line: Seq<char>) -> bool {
    has_infix(line, seq!['\\', '"']) || has_infix(line, seq!['\\', '\'']) || has_infix(
        line,
        seq!['\\', '\\'],
    )
}

/// Backslash when any of the first ten lines uses a backslash escape; otherwise the
/// quote itself when some line holds it doubled.
pub open spec fn spec_escape_character(content: Seq<char>, quote: Option<Seq<char>>) -> Option<
    Seq<char>,
> {
    let lines = first_lines(content, 10);
    if lines.len() == 0 {
        None
    } else if exists|i: int| 0 <= i < lines.len() && has_backslash_escape(lines[i]) {
        Some(seq!['\\'])
    } else {
        match quote {
            Some(q) => if exists|i: int| 0 <= i < lines.len() && has_infix(lines[i], q + q) {
                Some(q)
            } else {
                None
            },
            None => None,
        }
    }
}

/// The delimiter as shown in metadata: a tab as `\t`, any other byte as its character.
pub open spec fn spec_delimiter_display(b: u8) -> Seq<char> {
    if b == 9 {
        seq!['\\', 't']
    } else {
        seq![b as char]
    }
}

/// Length of a path once trailing separators and trailing `.` components go
/// (`Path::components` drops both).
pub open spec fn name_end(p: Seq<char>) -> int
    decreases p.len(),
{
    if p.len() > 0 && p.last() == '/' {
        name_end(p.drop_last())
    } else if p.len() >= 2 && p.last() == '.' && p[p.len() - 2] == '/' {
        name_end(p.drop_last())
    } else {
        p.len() as int
    }
}

/// The file name of a path (`Path::file_name`): its final component, unless
/// that is empty, `.` or `..`.
pub open spec fn path_file_name(p: Seq<char>) -> Option<Seq<char>> {
    let e = name_end(p);
    let n = p.subrange(crate::archive::segment_start(p, e), e);
    if n.len() == 0 || (n.len() == 1 && n[0] == '.') || (n.len() == 2 && n[0] == '.' && n[1] == '.') {
        None
    } else {
        Some(n)
    }
}

/// Index of the last `.` in `n[..i]`, or -1.
pub open spec fn last_dot(n: Seq<char>, i: int) -> int
    decreases i,
{
    if i <= 0 {
        -1
    } else if n[i - 1] == '.' {
        i - 1
    } else {
        last_dot(n, i - 1)
    }
}

/// Extension of a path (`Path::extension`): the part of the file name after
/// its last `.`; none without a file name, without a `.`, or when the only
/// `.` begins the name.
pub open spec fn path_extension(path: Seq<char>) -> Option<Seq<char>> {
    match path_file_name(path) {
        None => None,
        Some(n) => {
            let k = last_dot(n, n.len() as int);
            if k <= 0 {
                None
            } else {
                Some(n.subrange(k + 1, n.len() as int))
            }
        },
    }
}

/// Lower-case form of a text (`str::to_lowercase`).
pub uninterp spec fn lowercase(s: Seq<char>) -> Seq<char>;

/// Delimiter for reading: tab for `.tsv`/`.tab`, pipe for `.psv`, else detected.
pub open spec fn spec_reader_delimiter(content: Seq<char>, path: Seq<char>) -> u8 {
    match path_extension(path) {
        Some(e) => if lowercase(e) == "tsv"@ || lowercase(e) == "tab"@ {
            9
        } else if lowercase(e) == "psv"@ {
            0x7c
        } else {
            spec_delimiter_byte(content)
        },
        None => spec_delimiter_byte(content),
    }
}

/// What the `csv` crate reads from `text` with delimiter `delim`, headers on and
/// flexible row lengths: the header record (if it could be read) and every later
/// record (`None` where a record could not be read).
pub uninterp spec fn csv_parse(text: Seq<char>, delim: u8) -> (
    Option<Seq<Seq<char>>>,
    Seq<Option<Seq<Seq<char>>>>,
);

/// The records that were read, in order.
pub open spec fn good_records(rs: Seq<Option<Seq<Seq<char>>>>) -> Seq<Seq<Seq<char>>>
    decreases rs.len(),
{
    if rs.len() == 0 {
        Seq::empty()
    } else {
        match rs.last() {
            Some(r) => good_records(rs.drop_last()).push(r),
            None => good_records(rs.drop_last()),
        }
    }
}

/// Column count: the header width when it is positive, else the first record's width.
pub open spec fn spec_column_count(headers: Option<Seq<Seq<char>>>, rows: Seq<Seq<Seq<char>>>) -> nat {
    let h = match headers {
        Some(h) => h.len(),
        None => 0,
    };
    if h > 0 {
        h
    } else if rows.len() > 0 {
        rows[0].len()
    } else {
        0
    }
}

// ---------------------------------------------------------------------------
// Paths
// ---------------------------------------------------------------------------

/// The extension of a path, as `Path::extension` gives it.
fn file_extension(path: &str) -> (r: Option<String>)
    ensures
        opt_text(r) == path_extension(path@),
{
    let p = chars_of(path);
    let mut e: usize = p.len();
    assert(p@.subrange(0, e as int) =~= p@);
    loop
        invariant_except_break
            e <= p.len(),
            p@ == path@,
            name_end(p@) == name_end(p@.subrange(0, e as int)),
        ensures
            e <= p.len(),
            p@ == path@,
            name_end(p@) == e,
        decreases e,
    {
        let ghost cur = p@.subrange(0, e as int);
        if e > 0 && (p[e - 1] == '/' || (e >= 2 && p[e - 1] == '.' && p[e - 2] == '/')) {
            assert(cur.drop_last() =~= p@.subrange(0, e - 1));
            e = e - 1;
        } else {
            break;
        }
    }
    let mut a: usize = e;
    while a > 0 && p[a - 1] != '/'
        invariant
            a <= e <= p.len(),
            crate::archive::segment_start(p@, e as int) == crate::archive::segment_start(p@, a as int),
        decreases a,
    {
        a = a - 1;
    }
    let n = copy_range(p.as_slice(), a, e);
    assert(n@ == p@.subrange(crate::archive::segment_start(p@, e as int), e as int));
    if n.len() == 0 || (n.len() == 1 && n[0] == '.') || (n.len() == 2 && n[0] == '.' && n[1] == '.') {
        return None;
    }
    let mut j: usize = n.len();
    while j > 0 && n[j - 1] != '.'
        invariant
            j <= n.len(),
            last_dot(n@, n.len() as int) == last_dot(n@, j as int),
        decreases j,
    {
        j = j - 1;
    }
    if j <= 1 {
        None
    } else {
        let ext = copy_range(n.as_slice(), j, n.len());
        Some(string_of(ext.as_slice()))
    }
}

// ---------------------------------------------------------------------------
// Outside calls
// ---------------------------------------------------------------------------

/// `str::to_lowercase`; the contract names the result.
#[verifier::external_body]
pub(crate) fn to_lowercase(s: &str) -> (r: String)
    ensures
        r@ == lowercase(s@),
{
    s.to_lowercase()
}

/// Reads `text` with `csv::ReaderBuilder` (the delimiter, headers on, flexible rows):
/// the header record and each later record, `None` for a record the crate could not
/// read. The contract names the result: what the crate returns is not restated here.
#[verifier::external_body]
fn csv_read(text: &str, delim: u8) -> (r: (Option<Vec<String>>, Vec<Option<Vec<String>>>))
    ensures
        (match r.0 {
            Some(h) => Some(crate::pickle::strings_view(h@)),
            None => None,
        }, r.1@.map_values(|o: Option<Vec<String>>| match o {
            Some(v) => Some(crate::pickle::strings_view(v@)),
            None => None,
        })) == csv_parse(text@, delim),
{
    let mut reader = csv::ReaderBuilder::new().delimiter(delim).has_headers(true).flexible(true)
        .from_reader(text.as_bytes());
    let headers = match reader.headers() {
        Ok(h) => Some(h.iter().map(|s| s.to_string()).collect()),
        Err(_) => None,
    };
    let rows = reader.records().map(|r| match r {
        Ok(rec) => Some(rec.iter().map(|s| s.to_string()).collect()),
        Err(_) => None,
    }).collect();
    (headers, rows)
}

// ---------------------------------------------------------------------------
// Detection
// ---------------------------------------------------------------------------

/// Common CSV characters: separators, quotes and backslash escapes.
pub struct CsvSyntax {
    pub delimiters: [char; 5],
    pub quote_chars: [char; 2],
    pub backslash_escapes: [&'static str; 3],
}

impl CsvSyntax {
    /// The separators `,` `;` tab `|` `:`, the quotes `"` and `'`, and the
    /// escapes `\"`, `\'` and `\\`.
    pub fn new() -> (r: Self)
        ensures
            r.delimiters@ == csv_delimiters(),
            r.quote_chars@ == seq!['"', '\''],
            r.backslash_escapes@.len() == 3,
            r.backslash_escapes@[0]@ == "\\\""@,
            r.backslash_escapes@[1]@ == "\\'"@,
            r.backslash_escapes@[2]@ == "\\\\"@,
    {
        let r = CsvSyntax {
            delimiters: [',', ';', '\t', '|', ':'],
            quote_chars: ['"', '\''],
            backslash_escapes: ["\\\"", "\\'", "\\\\"],
        };
        assert(r.delimiters@ =~= csv_delimiters());
        assert(r.quote_chars@ =~= seq!['"', '\'']);
        r
    }
}

/// Occurrences of `c` summed over `lines`.
fn count_in_lines(lines: &Vec<Vec<char>>, c: char) -> (n: u128)
    requires
        lines@.len() <= 10,
    ensures
        n == total_count(char_vecs(lines@), c),
        n <= lines@.len() * 0x1_0000_0000_0000_0000,
{
    let mut n: u128 = 0;
    let mut i: usize = 0;
    while i < lines.len()
        invariant
            i <= lines@.len() <= 10,
            n == total_count(char_vecs(lines@).subrange(0, i as int), c),
            n <= i * 0x1_0000_0000_0000_0000,
        decreases lines.len() - i,
    {
        let k = count_occurrences(lines[i].as_slice(), c);
        assert(char_vecs(lines@).subrange(0, i + 1).drop_last() =~= char_vecs(lines@).subrange(
            0,
            i as int,
        ));
        n = n + k as u128;
        i = i + 1;
    }
    assert(char_vecs(lines@).subrange(0, i as int) =~= char_vecs(lines@));
    n
}

/// Samples the first lines and picks the most frequent of the common separators.
pub fn dominant_delimiter_char(content: &str) -> (r: Option<char>)
    ensures
        r == spec_dominant_delimiter(content@),
{
    let text = chars_of(content);
    let sample = take_lines(text.as_slice(), 5);
    if sample.len() == 0 {
        return None;
    }
    let syntax = CsvSyntax::new();
    let delimiters = syntax.delimiters;
    let ghost lines = char_vecs(sample@);
    let ghost cs = delimiter_counts(content@);
    assert(delimiters@ =~= csv_delimiters());
    assert(cs.len() == 5);
    let mut best_i: usize = 0;
    let mut best_c: u128 = count_in_lines(&sample, delimiters[0]);
    assert(cs.subrange(0, 1).len() == 1);
    let mut i: usize = 1;
    while i < 5
        invariant
            1 <= i <= 5,
            delimiters@ == csv_delimiters(),
            lines == char_vecs(sample@),
            lines == first_lines(content@, 5),
            sample@.len() <= 5,
            cs == delimiter_counts(content@),
            cs.len() == 5,
            best_i < i,
            best_i as int == first_max_index(cs.subrange(0, i as int)),
            best_c == cs[best_i as int],
        decreases 5 - i,
    {
        let c = count_in_lines(&sample, delimiters[i]);
        assert(cs.subrange(0, i + 1).drop_last() =~= cs.subrange(0, i as int));
        if c > best_c {
            best_i = i;
            best_c = c;
        }
        i = i + 1;
    }
    assert(cs.subrange(0, 5) =~= cs);
    if best_c > 0 {
        Some(delimiters[best_i])
    } else {
        None
    }
}

/// Byte to pass to the reader's `delimiter`: the dominant delimiter, or a comma.
pub fn detect_delimiter_byte(content: &str) -> (b: u8)
    ensures
        b == spec_delimiter_byte(content@),
{
    match dominant_delimiter_char(content) {
        Some(c) => c as u8,
        None => 0x2c,
    }
}

/// A single-byte delimiter as shown in metadata (tab as `\t`).
pub fn format_delimiter_for_metadata(byte: u8) -> (s: String)
    ensures
        s@ == spec_delimiter_display(byte),
{
    let mut v: Vec<char> = Vec::new();
    if byte == 9 {
        v.push('\\');
        v.push('t');
    } else {
        v.push(byte as char);
    }
    assert(v@ =~= spec_delimiter_display(byte));
    string_of(v.as_slice())
}

/// Delimiter for parsing: tab for `.tsv`/`.tab`, pipe for `.psv` (any letter case),
/// otherwise detected from the content.
pub fn delimiter_byte_for_reader(content: &str, file_path: &str) -> (b: u8)
    ensures
        b == spec_reader_delimiter(content@, file_path@),
{
    match file_extension(file_path) {
        Some(e) => {
            let lower = to_lowercase(e.as_str());
            let l = chars_of(lower.as_str());
            let tsv = chars_of("tsv");
            let tab = chars_of("tab");
            let psv = chars_of("psv");
            if same_chars(l.as_slice(), tsv.as_slice()) || same_chars(l.as_slice(), tab.as_slice()) {
                9
            } else if same_chars(l.as_slice(), psv.as_slice()) {
                0x7c
            } else {
                detect_delimiter_byte(content)
            }
        },
        None => detect_delimiter_byte(content),
    }
}

/// Whether two character sequences are equal.
pub fn same_chars(a: &[char], b: &[char]) -> (r: bool)
    ensures
        r == (a@ == b@),
{
    if a.len() != b.len() {
        return false;
    }
    let mut i: usize = 0;
    while i < a.len()
        invariant
            a.len() == b.len(),
            i <= a.len(),
            forall|j: int| 0 <= j < i ==> a@[j] == b@[j],
        decreases a.len() - i,
    {
        if a[i] != b[i] {
            return false;
        }
        i = i + 1;
    }
    assert(a@ =~= b@);
    true
}

/// Quote evidence of one line.
fn line_score(line: &[char], q: char, sep: char) -> (n: u128)
    ensures
        n == line_quote_score(line@, q, sep),
        n <= 0x1_0000_0000_0000_0000,
{
    let qc = count_occurrences(line, q);
    let mut n: u128 = 0;
    if qc >= 2 && qc % 2 == 0 {
        n = (qc / 2) as u128;
    }
    let mut p1: Vec<char> = Vec::new();
    p1.push(q);
    p1.push(sep);
    let mut p2: Vec<char> = Vec::new();
    p2.push(sep);
    p2.push(q);
    assert(p1@ =~= seq![q, sep]);
    assert(p2@ =~= seq![sep, q]);
    if contains(line, p1.as_slice()) || contains(line, p2.as_slice()) {
        n = n + 1;
    }
    n
}

/// Quote evidence summed over `lines`.
fn score_lines(lines: &Vec<Vec<char>>, q: char, sep: char) -> (n: u128)
    requires
        lines@.len() <= 10,
    ensures
        n == quote_score(char_vecs(lines@), q, sep),
{
    let mut n: u128 = 0;
    let mut i: usize = 0;
    while i < lines.len()
        invariant
            i <= lines@.len() <= 10,
            n == quote_score(char_vecs(lines@).subrange(0, i as int), q, sep),
            n <= i * 0x1_0000_0000_0000_0000,
        decreases lines.len() - i,
    {
        let k = line_score(lines[i].as_slice(), q, sep);
        assert(char_vecs(lines@).subrange(0, i + 1).drop_last() =~= char_vecs(lines@).subrange(
            0,
            i as int,
        ));
        n = n + k;
        i = i + 1;
    }
    assert(char_vecs(lines@).subrange(0, i as int) =~= char_vecs(lines@));
    n
}

/// Detects the quote character from paired quotes and quotes next to the separator.
pub fn detect_quote_character(content: &str, field_separator: char) -> (r: Option<String>)
    ensures
        opt_text(r) == spec_quote_character(content@, field_separator),
{
    let text = chars_of(content);
    let sample = take_lines(text.as_slice(), 10);
    if sample.len() == 0 {
        return None;
    }
    let d = score_lines(&sample, '"', field_separator);
    let s = score_lines(&sample, '\'', field_separator);
    if s > d {
        let v: Vec<char> = vec!['\''];
        assert(v@ =~= seq!['\'']);
        Some(string_of(v.as_slice()))
    } else if d > 0 {
        let v: Vec<char> = vec!['"'];
        assert(v@ =~= seq!['"']);
        Some(string_of(v.as_slice()))
    } else {
        None
    }
}

/// Whether some line contains `pattern`.
fn some_line_contains(lines: &Vec<Vec<char>>, pattern: &[char]) -> (b: bool)
    ensures
        b == exists|i: int| 0 <= i < lines@.len() && has_infix(char_vecs(lines@)[i], pattern@),
{
    let mut i: usize = 0;
    while i < lines.len()
        invariant
            i <= lines@.len(),
            forall|j: int| 0 <= j < i ==> !has_infix(#[trigger] char_vecs(lines@)[j], pattern@),
        decreases lines.len() - i,
    {
        if contains(lines[i].as_slice(), pattern) {
            assert(has_infix(char_vecs(lines@)[i as int], pattern@));
            return true;
        }
        i = i + 1;
    }
    false
}

/// Detects the escape character: backslash if any sampled line has a backslash
/// escape, else the quote when some line holds it doubled.
pub fn detect_escape_character(
    content: &str,
    _delimiter: Option<&str>,
    quote: Option<&str>,
) -> (r: Option<String>)
    ensures
        opt_text(r) == spec_escape_character(
            content@,
            match quote {
                Some(q) => Some(q@),
                None => None,
            },
        ),
{
    let text = chars_of(content);
    let sample = take_lines(text.as_slice(), 10);
    if sample.len() == 0 {
        return None;
    }
    let ghost lines = char_vecs(sample@);
    let e1: Vec<char> = vec!['\\', '"'];
    let e2: Vec<char> = vec!['\\', '\''];
    let e3: Vec<char> = vec!['\\', '\\'];
    let b1 = some_line_contains(&sample, e1.as_slice());
    let b2 = some_line_contains(&sample, e2.as_slice());
    let b3 = some_line_contains(&sample, e3.as_slice());
    assert(e1@ =~= seq!['\\', '"']);
    assert(e2@ =~= seq!['\\', '\'']);
    assert(e3@ =~= seq!['\\', '\\']);
    if b1 || b2 || b3 {
        let v: Vec<char> = vec!['\\'];
        assert(v@ =~= seq!['\\']);
        return Some(string_of(v.as_slice()));
    }
    assert(!(exists|i: int| 0 <= i < lines.len() && has_backslash_escape(lines[i])));
    match quote {
        Some(q) => {
            let qc = chars_of(q);
            let mut doubled = qc.clone();
            crate::text::append_chars(&mut doubled, qc.as_slice());
            if some_line_contains(&sample, doubled.as_slice()) {
                Some(q.to_owned())
            } else {
                None
            }
        },
        None => None,
    }
}

// ---------------------------------------------------------------------------
// Metadata
// ---------------------------------------------------------------------------

/// Number of records that were read.
fn count_good(rows: &Vec<Option<Vec<String>>>) -> (n: usize)
    ensures
        n == good_records(rows@.map_values(|o: Option<Vec<String>>| match o {
            Some(v) => Some(crate::pickle::strings_view(v@)),
            None => None,
        })).len(),
{
    let ghost views = rows@.map_values(|o: Option<Vec<String>>| match o {
        Some(v) => Some(crate::pickle::strings_view(v@)),
        None => None,
    });
    let mut n: usize = 0;
    let mut i: usize = 0;
    while i < rows.len()
        invariant
            i <= rows@.len(),
            views == rows@.map_values(|o: Option<Vec<String>>| match o {
                Some(v) => Some(crate::pickle::strings_view(v@)),
                None => None,
            }),
            n == good_records(views.subrange(0, i as int)).len(),
            n <= i,
        decreases rows.len() - i,
    {
        assert(views.subrange(0, i + 1).drop_last() =~= views.subrange(0, i as int));
        if rows[i].is_some() {
            n = n + 1;
        }
        i = i + 1;
    }
    assert(views.subrange(0, i as int) =~= views);
    n
}

/// Width of the first record that was read, if any.
fn first_good_width(rows: &Vec<Option<Vec<String>>>) -> (w: usize)
    ensures
        ({
            let g = good_records(rows@.map_values(|o: Option<Vec<String>>| match o {
                Some(v) => Some(crate::pickle::strings_view(v@)),
                None => None,
            }));
            if g.len() > 0 {
                w == g[0].len()
            } else {
                w == 0
            }
        }),
{
    let ghost views = rows@.map_values(|o: Option<Vec<String>>| match o {
        Some(v) => Some(crate::pickle::strings_view(v@)),
        None => None,
    });
    let mut i: usize = 0;
    while i < rows.len()
        invariant
            i <= rows@.len(),
            views == rows@.map_values(|o: Option<Vec<String>>| match o {
                Some(v) => Some(crate::pickle::strings_view(v@)),
                None => None,
            }),
            good_records(views.subrange(0, i as int)).len() == 0,
        decreases rows.len() - i,
    {
        assert(views.subrange(0, i + 1).drop_last() =~= views.subrange(0, i as int));
        match &rows[i] {
            Some(v) => {
                proof {
                    lemma_good_records_first(views, i as int);
                }
                return v.len();
            },
            None => {},
        }
        i = i + 1;
    }
    assert(views.subrange(0, i as int) =~= views);
    0
}

/// When the records before `i` all failed and record `i` was read, it comes first.
proof fn lemma_good_records_first(views: Seq<Option<Seq<Seq<char>>>>, i: int)
    requires
        0 <= i < views.len(),
        good_records(views.subrange(0, i)).len() == 0,
        views[i] is Some,
    ensures
        good_records(views).len() > 0,
        good_records(views)[0] == views[i]->0,
{
    lemma_good_records_prefix(views, i + 1);
    assert(views.subrange(0, i + 1).drop_last() =~= views.subrange(0, i));
    assert(good_records(views.subrange(0, i + 1)) =~= seq![views[i]->0]);
}

/// The records read from a prefix start the records read from the whole.
proof fn lemma_good_records_prefix(views: Seq<Option<Seq<Seq<char>>>>, n: int)
    requires
        0 <= n <= views.len(),
    ensures
        good_records(views).len() >= good_records(views.subrange(0, n)).len(),
        forall|k: int|
            0 <= k < good_records(views.subrange(0, n)).len() ==> good_records(views)[k]
                == good_records(views.subrange(0, n))[k],
    decreases views.len() - n,
{
    if n < views.len() {
        lemma_good_records_prefix(views, n + 1);
        assert(views.subrange(0, n + 1).drop_last() =~= views.subrange(0, n));
    } else {
        assert(views.subrange(0, n) =~= views);
    }
}

/// The record views of what the reader gave.
pub open spec fn record_views(rows: Seq<Option<Vec<String>>>) -> Seq<Option<Seq<Seq<char>>>> {
    rows.map_values(|o: Option<Vec<String>>| match o {
        Some(v) => Some(crate::pickle::strings_view(v@)),
        None => None,
    })
}

/// Number of data records the reader reads (records it cannot read are skipped).
pub fn count_data_rows(content_str: &str, delim_byte: u8) -> (n: usize)
    ensures
        n == good_records(csv_parse(content_str@, delim_byte).1).len(),
{
    let (_, rows) = csv_read(content_str, delim_byte);
    count_good(&rows)
}

/// The header names, their number, and whether there is a header record.
pub fn read_csv_headers(content_str: &str, delim_byte: u8) -> (r: (Option<Vec<String>>, Option<usize>, Option<bool>))
    ensures
        match csv_parse(content_str@, delim_byte).0 {
            Some(h) => r.0 matches Some(v) && crate::pickle::strings_view(v@) == h && r.1 == Some(h.len() as usize) && r.2 == Some(true),
            None => r.0 is None && r.1 is None && r.2 == Some(false),
        },
{
    let (headers, _) = csv_read(content_str, delim_byte);
    match headers {
        Some(h) => {
            let n = h.len();
            (Some(h), Some(n), Some(true))
        },
        None => (None, None, Some(false)),
    }
}

/// The first `max_rows` data records the reader reads.
pub fn collect_sample_rows(content_str: &str, delim_byte: u8, max_rows: usize) -> (out: Vec<Vec<String>>)
    ensures
        out@.map_values(|v: Vec<String>| crate::pickle::strings_view(v@)) == (if good_records(csv_parse(content_str@, delim_byte).1).len() <= max_rows {
            good_records(csv_parse(content_str@, delim_byte).1)
        } else {
            good_records(csv_parse(content_str@, delim_byte).1).take(max_rows as int)
        }),
{
    let (_, mut rows) = csv_read(content_str, delim_byte);
    let ghost orig = rows@;
    let ghost views = record_views(rows@);
    let ghost all = good_records(views);
    assert(views == csv_parse(content_str@, delim_byte).1);
    let mut out: Vec<Vec<String>> = Vec::new();
    let mut i: usize = 0;
    let n = rows.len();
    while i < n && out.len() < max_rows
        invariant
            i <= n,
            n == orig.len(),
            rows@ == orig.skip(i as int),
            views == record_views(orig),
            all == good_records(views),
            out.len() <= max_rows,
            out@.map_values(|v: Vec<String>| crate::pickle::strings_view(v@)) == good_records(views.take(i as int)),
        decreases n - i,
    {
        assert(views.take(i + 1).drop_last() =~= views.take(i as int));
        assert(views.take(i + 1).last() == views[i as int]);
        let r = rows.remove(0);
        assert(r == orig[i as int]);
        match r {
            Some(v) => {
                let ghost before = out@;
                out.push(v);
                assert(out@.map_values(|v: Vec<String>| crate::pickle::strings_view(v@)) =~= before.map_values(|v: Vec<String>| crate::pickle::strings_view(v@)).push(views[i as int]->0));
            },
            None => {},
        }
        i = i + 1;
        assert(rows@ =~= orig.skip(i as int));
    }
    proof {
        crate::csv::lemma_good_records_prefix(views, i as int);
        if i == n {
            assert(views.take(i as int) =~= views);
        } else {
            assert(good_records(views.take(i as int)).len() == max_rows);
            assert(good_records(views).take(max_rows as int) =~= good_records(views.take(i as int)));
        }
    }
    out
}

/// `"UTF-8"` for valid UTF-8 content, else `"Non-UTF-8"`.
fn csv_encoding_label(content: &[u8]) -> (s: String)
    ensures
        s@ == (if valid_utf8(content@) {
            CsvEncodingLabel::UTF8@
        } else {
            CsvEncodingLabel::NON_UTF8@
        }),
{
    if utf8_str(content).is_some() {
        CsvEncodingLabel::UTF8.to_owned()
    } else {
        CsvEncodingLabel::NON_UTF8.to_owned()
    }
}

/// Rows the statistics sample: all `rows` up to the cap, which is at least one.
pub open spec fn sampled_rows(rows: nat, cap: usize) -> usize {
    let c: nat = if cap < 1 {
        1
    } else {
        cap as nat
    };
    (if rows < c {
        rows
    } else {
        c
    }) as usize
}

/// Layout metadata of delimiter-separated text: encoding label, delimiter (from the
/// path hint or the content), quote and escape characters, header names, the count
/// of data records and how many of them the statistics sample (at most
/// `sample_cap`, at least one where there are records). Non-UTF-8 content only
/// gets its encoding label.
pub fn extract_csv_metadata(content: &[u8], file_path: &str, sample_cap: usize) -> (m: CsvMetadata)
    ensures
        !valid_utf8(content@) ==> {
            &&& m.common.encoding matches Some(e) && e@ == CsvEncodingLabel::NON_UTF8@
            &&& m.common.row_count == 0 && m.common.column_count == 0
            &&& m.common.stats_rows_sampled is None
            &&& m.delimiter is None && m.has_header is None && m.column_names is None
            &&& m.quote_character is None && m.escape_character is None
        },
        valid_utf8(content@) ==> {
            let text = vstd::utf8::decode_utf8(content@);
            let delim = spec_reader_delimiter(text, file_path@);
            let parsed = csv_parse(text, delim);
            let rows = good_records(parsed.1);
            &&& m.common.encoding matches Some(e) && e@ == CsvEncodingLabel::UTF8@
            &&& m.common.row_count == rows.len()
            &&& m.common.stats_rows_sampled == Some(sampled_rows(rows.len(), sample_cap))
            &&& m.common.column_count == spec_column_count(parsed.0, rows)
            &&& m.delimiter matches Some(d) && d@ == spec_delimiter_display(delim)
            &&& m.has_header == Some(parsed.0 is Some)
            &&& (match m.column_names {
                Some(v) => parsed.0 == Some(crate::pickle::strings_view(v@)),
                None => parsed.0 is None,
            })
            &&& opt_text(m.quote_character) == spec_quote_character(text, delim as char)
            &&& opt_text(m.escape_character) == spec_escape_character(
                text,
                spec_quote_character(text, delim as char),
            )
        },
{
    let encoding = csv_encoding_label(content);
    let content_str = match utf8_str(content) {
        Some(s) => s,
        None => {
            return CsvMetadata {
                common: ColumnarCommonFields {
                    row_count: 0,
                    column_count: 0,
                    stats_rows_sampled: None,
                    encoding: Some(encoding),
                },
                column_names: None,
                delimiter: None,
                quote_character: None,
                escape_character: None,
                has_header: None,
            };
        },
    };
    let delim_byte = delimiter_byte_for_reader(content_str, file_path);
    let field_sep = delim_byte as char;
    let (headers, records) = csv_read(content_str, delim_byte);
    let has_header = headers.is_some();
    let header_count = match &headers {
        Some(h) => h.len(),
        None => 0,
    };
    let row_count = count_good(&records);
    let column_count = if header_count > 0 {
        header_count
    } else {
        first_good_width(&records)
    };
    let cap = if sample_cap < 1 {
        1
    } else {
        sample_cap
    };
    let stats_rows_sampled = if row_count < cap {
        row_count
    } else {
        cap
    };
    let delimiter_display = format_delimiter_for_metadata(delim_byte);
    let quote_character = detect_quote_character(content_str, field_sep);
    let escape_character = match &quote_character {
        Some(q) => detect_escape_character(
            content_str,
            Some(delimiter_display.as_str()),
            Some(q.as_str()),
        ),
        None => detect_escape_character(content_str, Some(delimiter_display.as_str()), None),
    };
    CsvMetadata {
        common: ColumnarCommonFields {
            row_count,
            column_count,
            stats_rows_sampled: Some(stats_rows_sampled),
            encoding: Some(encoding),
        },
        column_names: headers,
        delimiter: Some(delimiter_display),
        quote_character,
        escape_character,
        has_header: Some(has_header),
    }
}

// ---------------------------------------------------------------------------
// Laws
// ---------------------------------------------------------------------------

proof fn lemma_first_max(cs: Seq<nat>)
    requires
        cs.len() > 0,
    ensures
        0 <= first_max_index(cs) < cs.len(),
        forall|k: int| 0 <= k < cs.len() ==> #[trigger] cs[k] <= cs[first_max_index(cs)],
        forall|k: int| 0 <= k < first_max_index(cs) ==> #[trigger] cs[k] < cs[first_max_index(cs)],
    decreases cs.len(),
{
    if cs.len() > 1 {
        let d = cs.drop_last();
        lemma_first_max(d);
        assert forall|k: int| 0 <= k < d.len() implies d[k] == cs[k] by {}
    }
}

/// Law: the dominant delimiter occurs in the first five lines at least as often
/// as every other candidate, and strictly more often than every candidate
/// listed before it.
pub proof fn law_dominant_delimiter_is_most_frequent(content: Seq<char>)
    ensures
        spec_dominant_delimiter(content) matches Some(c) ==> {
            let ls = first_lines(content, 5);
            &&& csv_delimiters().contains(c)
            &&& total_count(ls, c) > 0
            &&& forall|k: int|
                0 <= k < csv_delimiters().len() ==> total_count(ls, #[trigger] csv_delimiters()[k])
                    <= total_count(ls, c)
            &&& forall|k: int|
                0 <= k < csv_delimiters().len() && csv_delimiters()[k] == c ==> forall|m: int|
                    0 <= m < k ==> total_count(ls, #[trigger] csv_delimiters()[m]) < total_count(ls, c)
        },
{
    let cs = delimiter_counts(content);
    lemma_first_max(cs);
    let j = first_max_index(cs);
    let ls = first_lines(content, 5);
    assert forall|k: int| 0 <= k < csv_delimiters().len() implies cs[k] == total_count(
        ls,
        csv_delimiters()[k],
    ) by {}
    if spec_dominant_delimiter(content) is Some {
        let c = csv_delimiters()[j];
        assert(spec_dominant_delimiter(content) == Some(c));
        assert(csv_delimiters().contains(c)) by {
            assert(csv_delimiters()[j] == c);
        }
        assert(total_count(ls, c) == cs[j]);
        assert forall|k: int| 0 <= k < csv_delimiters().len() implies total_count(
            ls,
            #[trigger] csv_delimiters()[k],
        ) <= total_count(ls, c) by {
            assert(cs[k] <= cs[j]);
        }
        assert forall|k: int|
            0 <= k < csv_delimiters().len() && csv_delimiters()[k] == c implies forall|m: int|
            0 <= m < k ==> total_count(ls, #[trigger] csv_delimiters()[m]) < total_count(ls, c) by {
            assert(k == j);
            assert forall|m: int| 0 <= m < k implies total_count(
                ls,
                #[trigger] csv_delimiters()[m],
            ) < total_count(ls, c) by {
                assert(cs[m] < cs[j]);
            }
        }
    }
}

// ---------------------------------------------------------------------------
// Laws on quote detection
// ---------------------------------------------------------------------------

proof fn lemma_absent_char(s: Seq<char>, c: char, x: char)
    requires
        !s.contains(c),
    ensures
        count_char(s, c) == 0,
        !has_infix(s, seq![c, x]),
        !has_infix(s, seq![x, c]),
    decreases s.len(),
{
    if s.len() > 0 {
        assert(!s.drop_last().contains(c)) by {
            if s.drop_last().contains(c) {
                let k = choose|k: int| 0 <= k < s.drop_last().len() && s.drop_last()[k] == c;
                assert(s[k] == c);
            }
        }
        lemma_absent_char(s.drop_last(), c, x);
        assert(s[s.len() - 1] != c);
    }
    assert(!has_infix(s, seq![c, x])) by {
        if has_infix(s, seq![c, x]) {
            let k = choose|k: int| crate::text::occurs_at(s, seq![c, x], k);
            assert(s.subrange(k, k + 2)[0] == s[k]);
        }
    }
    assert(!has_infix(s, seq![x, c])) by {
        if has_infix(s, seq![x, c]) {
            let k = choose|k: int| crate::text::occurs_at(s, seq![x, c], k);
            assert(s.subrange(k, k + 2)[1] == s[k + 1]);
        }
    }
}

proof fn lemma_quote_score_absent(ls: Seq<Seq<char>>, q: char, sep: char)
    requires
        forall|j: int| 0 <= j < ls.len() ==> !(#[trigger] ls[j]).contains(q),
    ensures
        quote_score(ls, q, sep) == 0,
    decreases ls.len(),
{
    if ls.len() > 0 {
        lemma_quote_score_absent(ls.drop_last(), q, sep);
        lemma_absent_char(ls.last(), q, sep);
    }
}

proof fn lemma_quote_score_at_least_line(ls: Seq<Seq<char>>, q: char, sep: char, i: int)
    requires
        0 <= i < ls.len(),
    ensures
        quote_score(ls, q, sep) >= line_quote_score(ls[i], q, sep),
    decreases ls.len(),
{
    if i < ls.len() - 1 {
        assert(ls.drop_last()[i] == ls[i]);
        lemma_quote_score_at_least_line(ls.drop_last(), q, sep, i);
    }
}

/// Law: double-quote evidence on any of the first ten lines (an even number
/// of double quotes, at least two, or a double quote next to the separator)
/// makes `"` the quote character when none of those lines holds a single
/// quote.
pub proof fn law_double_quote_found_in_first_ten_lines(content: Seq<char>, sep: char, i: int)
    requires
        0 <= i < 10,
        i < lines(content).len(),
        ({
            let l = lines(content)[i];
            (count_char(l, '"') >= 2 && count_char(l, '"') % 2 == 0) || has_infix(l, seq!['"', sep])
                || has_infix(l, seq![sep, '"'])
        }),
        forall|j: int| 0 <= j < 10 && j < lines(content).len() ==> !(#[trigger] lines(content)[j]).contains('\''),
    ensures
        spec_quote_character(content, sep) == Some(seq!['"']),
{
    let ls = first_lines(content, 10);
    assert(ls[i] == lines(content)[i]);
    assert forall|j: int| 0 <= j < ls.len() implies !(#[trigger] ls[j]).contains('\'') by {
        assert(ls[j] == lines(content)[j]);
    }
    lemma_quote_score_absent(ls, '\'', sep);
    lemma_quote_score_at_least_line(ls, '"', sep, i);
}

/// Law: when none of the first ten lines holds a quote of either kind, no
/// quote character is detected.
pub proof fn law_no_quote_without_quotes(content: Seq<char>, sep: char)
    requires
        forall|j: int|
            0 <= j < 10 && j < lines(content).len() ==> !(#[trigger] lines(content)[j]).contains('\'')
                && !lines(content)[j].contains('"'),
    ensures
        spec_quote_character(content, sep) is None,
{
    let ls = first_lines(content, 10);
    assert forall|j: int| 0 <= j < ls.len() implies !(#[trigger] ls[j]).contains('\'') && !ls[j].contains('"') by {
        assert(ls[j] == lines(content)[j]);
    }
    lemma_quote_score_absent(ls, '\'', sep);
    lemma_quote_score_absent(ls, '"', sep);
}

/// Law: quote detection reads the first ten lines only: two texts that agree
/// on them get the same quote character.
pub proof fn law_quote_reads_first_ten_lines(c1: Seq<char>, c2: Seq<char>, sep: char)
    requires
        first_lines(c1, 10) == first_lines(c2, 10),
    ensures
        spec_quote_character(c1, sep) == spec_quote_character(c2, sep),
{
}

} // verus!
