//! Character-sequence helpers shared by the parsers: UTF-8 decoding, prefix and
//! infix search, occurrence counting, line splitting, trimming and decimal formatting.

use vstd::prelude::*;
use vstd::utf8::*;

verus! {

// ---------------------------------------------------------------------------
// Specifications
// ---------------------------------------------------------------------------

/// `p` is a prefix of `s`.
pub open spec fn has_prefix<A>(s: Seq<A>, p: Seq<A>) -> bool {
    p.len() <= s.len() && s.subrange(0, p.len() as int) == p
}

/// `p` is a suffix of `s`.
pub open spec fn has_suffix<A>(s: Seq<A>, p: Seq<A>) -> bool {
    p.len() <= s.len() && s.subrange(s.len() - p.len(), s.len() as int) == p
}

/// `p` occurs in `s` starting at index `i`.
pub open spec fn occurs_at<A>(s: Seq<A>, p: Seq<A>, i: int) -> bool {
    0 <= i && i + p.len() <= s.len() && s.subrange(i, i + p.len()) == p
}

/// `p` occurs somewhere in `s` (the empty sequence occurs in every sequence).
pub open spec fn has_infix<A>(s: Seq<A>, p: Seq<A>) -> bool {
    exists|i: int| occurs_at(s, p, i)
}

/// Number of positions of `s` that hold `c`.
pub open spec fn count_char(s: Seq<char>, c: char) -> nat
    decreases s.len(),
{
    if s.len() == 0 {
        0
    } else {
        count_char(s.drop_last(), c) + (if s.last() == c { 1nat } else { 0nat })
    }
}

/// Unicode `White_Space` characters, as `char::is_whitespace` classifies them.
pub open spec fn is_space(c: char) -> bool {
    ||| c == '\t' || c == '\n' || c == '\u{0B}' || c == '\u{0C}' || c == '\r' || c == ' '
    ||| c == '\u{85}' || c == '\u{A0}' || c == '\u{1680}'
    ||| ('\u{2000}' <= c && c <= '\u{200A}')
    ||| c == '\u{2028}' || c == '\u{2029}' || c == '\u{202F}' || c == '\u{205F}'
    ||| c == '\u{3000}'
}

/// Index of the first non-whitespace character at or after `i` (or `s.len()`).
pub open spec fn first_non_space(s: Seq<char>, i: int) -> int
    decreases s.len() - i,
{
    if i >= s.len() {
        i
    } else if is_space(s[i]) {
        first_non_space(s, i + 1)
    } else {
        i
    }
}

/// One past the last non-whitespace character before index `j` (not below `lo`).
pub open spec fn last_non_space_end(s: Seq<char>, lo: int, j: int) -> int
    decreases j - lo,
{
    if j <= lo {
        lo
    } else if is_space(s[j - 1]) {
        last_non_space_end(s, lo, j - 1)
    } else {
        j
    }
}

/// `s` with leading and trailing whitespace removed (`str::trim`).
pub open spec fn trim(s: Seq<char>) -> Seq<char> {
    let a = first_non_space(s, 0);
    s.subrange(a, last_non_space_end(s, a, s.len() as int))
}

/// Index of the first `'\n'` at or after `i`, or `s.len()` if there is none.
pub open spec fn next_newline(s: Seq<char>, i: int) -> int
    decreases s.len() - i,
{
    if i >= s.len() {
        i
    } else if s[i] == '\n' {
        i
    } else {
        next_newline(s, i + 1)
    }
}

/// The line that starts at `i` and ends at `e` (the newline index or the end of text),
/// without its `"\n"` or `"\r\n"` terminator.
pub open spec fn line_body(s: Seq<char>, i: int, e: int) -> Seq<char> {
    if e < s.len() && e > i && s[e - 1] == '\r' {
        s.subrange(i, e - 1)
    } else {
        s.subrange(i, e)
    }
}

/// `next_newline` never moves backwards.
pub proof fn lemma_next_newline_bounds(s: Seq<char>, i: int)
    ensures
        next_newline(s, i) >= i,
    decreases s.len() - i,
{
    if i < s.len() && s[i] != '\n' {
        lemma_next_newline_bounds(s, i + 1);
    }
}

/// The lines of `s` from index `i` on, as `str::lines` yields them: split at `'\n'`,
/// a `'\r'` before the `'\n'` removed, and no empty line after a final `'\n'`.
pub open spec fn lines_from(s: Seq<char>, i: int) -> Seq<Seq<char>>
    decreases s.len() - i,
{
    if i < 0 || i >= s.len() {
        Seq::empty()
    } else {
        let e = next_newline(s, i);
        proof {
            lemma_next_newline_bounds(s, i);
        }
        if e >= s.len() {
            seq![line_body(s, i, e)]
        } else {
            seq![line_body(s, i, e)] + lines_from(s, e + 1)
        }
    }
}

/// All lines of `s` (`str::lines`).
pub open spec fn lines(s: Seq<char>) -> Seq<Seq<char>> {
    lines_from(s, 0)
}

/// The first `n` lines of `s` (`s.lines().take(n)`).
pub open spec fn first_lines(s: Seq<char>, n: nat) -> Seq<Seq<char>> {
    if lines(s).len() <= n {
        lines(s)
    } else {
        lines(s).take(n as int)
    }
}

/// The texts of a sequence of character vectors.
pub open spec fn char_vecs(v: Seq<Vec<char>>) -> Seq<Seq<char>> {
    v.map_values(|x: Vec<char>| x@)
}

/// ASCII decimal digit character.
pub open spec fn is_digit(c: char) -> bool {
    '0' <= c && c <= '9'
}

/// The character for a decimal digit value below ten.
pub open spec fn digit_char(d: nat) -> char {
    ((d + 48) as u8) as char
}

/// Decimal representation of `n` without leading zeros (`n.to_string()`).
pub open spec fn decimal(n: nat) -> Seq<char>
    decreases n,
{
    if n < 10 {
        seq![digit_char(n)]
    } else {
        decimal(n / 10).push(digit_char(n % 10))
    }
}

/// All characters of `s` are ASCII digits.
pub open spec fn all_digits(s: Seq<char>) -> bool {
    forall|i: int| 0 <= i < s.len() ==> is_digit(#[trigger] s[i])
}

/// The value of a string of ASCII digits.
pub open spec fn digits_value(s: Seq<char>) -> nat
    decreases s.len(),
{
    if s.len() == 0 {
        0
    } else {
        digits_value(s.drop_last()) * 10 + ((s.last() as nat) - 48) as nat
    }
}

// ---------------------------------------------------------------------------
// Calls into std
// ---------------------------------------------------------------------------

/// `std::str::from_utf8`: succeeds exactly on valid UTF-8, and the text it gives
/// back is the decoding of the bytes.
#[verifier::external_body]
pub fn utf8_str(bytes: &[u8]) -> (res: Option<&str>)
    ensures
        res is Some <==> valid_utf8(bytes@),
        res matches Some(s) ==> s@ == decode_utf8(bytes@),
{
    std::str::from_utf8(bytes).ok()
}

/// The display text of the error `std::str::from_utf8` gives for invalid bytes.
pub uninterp spec fn utf8_error_text(bytes: Seq<u8>) -> Seq<char>;

/// The display text of `std::str::from_utf8`'s error on bytes that are not UTF-8.
#[verifier::external_body]
pub fn utf8_error_message(bytes: &[u8]) -> (r: String)
    requires
        !valid_utf8(bytes@),
    ensures
        r@ == utf8_error_text(bytes@),
{
    match std::str::from_utf8(bytes) {
        Err(e) => e.to_string(),
        Ok(_) => String::new(),
    }
}

/// The characters of `s` (`str::chars`, collected).
#[verifier::external_body]
pub fn chars_of(s: &str) -> (v: Vec<char>)
    ensures
        v@ == s@,
{
    s.chars().collect()
}

/// A `String` holding the characters of `v` (collecting a `char` iterator).
#[verifier::external_body]
pub fn string_of(v: &[char]) -> (s: String)
    ensures
        s@ == v@,
{
    v.iter().collect()
}

// ---------------------------------------------------------------------------
// Executable helpers
// ---------------------------------------------------------------------------

/// Whether `c` is whitespace (`char::is_whitespace`).
pub fn char_is_space(c: char) -> (b: bool)
    ensures
        b == is_space(c),
{
    c == '\t' || c == '\n' || c == '\u{0B}' || c == '\u{0C}' || c == '\r' || c == ' '
        || c == '\u{85}' || c == '\u{A0}' || c == '\u{1680}' || ('\u{2000}' <= c && c
        <= '\u{200A}') || c == '\u{2028}' || c == '\u{2029}' || c == '\u{202F}' || c
        == '\u{205F}' || c == '\u{3000}'
}

/// Whether `p` is a prefix of `s`.
pub fn starts_with(s: &[char], p: &[char]) -> (b: bool)
    ensures
        b == has_prefix(s@, p@),
{
    if p.len() > s.len() {
        return false;
    }
    let mut i: usize = 0;
    while i < p.len()
        invariant
            p.len() <= s.len(),
            i <= p.len(),
            forall|j: int| 0 <= j < i ==> s@[j] == p@[j],
        decreases p.len() - i,
    {
        if s[i] != p[i] {
            assert(s@.subrange(0, p.len() as int)[i as int] != p@[i as int]);
            return false;
        }
        i = i + 1;
    }
    assert(s@.subrange(0, p.len() as int) =~= p@);
    true
}

/// Whether `p` is a suffix of `s`.
pub fn ends_with(s: &[char], p: &[char]) -> (b: bool)
    ensures
        b == has_suffix(s@, p@),
{
    if p.len() > s.len() {
        return false;
    }
    let off = s.len() - p.len();
    let mut i: usize = 0;
    while i < p.len()
        invariant
            p.len() <= s.len(),
            off == s.len() - p.len(),
            i <= p.len(),
            forall|j: int| 0 <= j < i ==> s@[off + j] == p@[j],
        decreases p.len() - i,
    {
        if s[off + i] != p[i] {
            assert(s@.subrange(off as int, s.len() as int)[i as int] != p@[i as int]);
            return false;
        }
        i = i + 1;
    }
    assert(s@.subrange(off as int, s.len() as int) =~= p@);
    true
}

/// Whether `p` occurs in `s` at index `i`.
pub fn matches_at(s: &[char], p: &[char], i: usize) -> (b: bool)
    ensures
        b == occurs_at(s@, p@, i as int),
{
    if i > s.len() || p.len() > s.len() - i {
        return false;
    }
    let mut k: usize = 0;
    while k < p.len()
        invariant
            i + p.len() <= s.len(),
            k <= p.len(),
            forall|j: int| 0 <= j < k ==> s@[i + j] == p@[j],
        decreases p.len() - k,
    {
        if s[i + k] != p[k] {
            assert(s@.subrange(i as int, i + p.len())[k as int] != p@[k as int]);
            return false;
        }
        k = k + 1;
    }
    assert(s@.subrange(i as int, i + p.len()) =~= p@);
    true
}

/// Whether `p` occurs anywhere in `s` (`str::contains`).
pub fn contains(s: &[char], p: &[char]) -> (b: bool)
    ensures
        b == has_infix(s@, p@),
{
    let mut i: usize = 0;
    while i < s.len()
        invariant
            i <= s.len(),
            forall|j: int| 0 <= j < i ==> !occurs_at(s@, p@, j),
        decreases s.len() - i,
    {
        if matches_at(s, p, i) {
            return true;
        }
        i = i + 1;
    }
    if matches_at(s, p, s.len()) {
        return true;
    }
    assert forall|j: int| !occurs_at(s@, p@, j) by {
        if 0 <= j && j < s.len() {
        } else if j == s.len() {
        }
    }
    false
}

/// Number of occurrences of `c` in `s` (`str::matches(c).count()`).
pub fn count_occurrences(s: &[char], c: char) -> (n: usize)
    ensures
        n == count_char(s@, c),
{
    let mut n: usize = 0;
    let mut i: usize = 0;
    while i < s.len()
        invariant
            i <= s.len(),
            n == count_char(s@.subrange(0, i as int), c),
            n <= i,
        decreases s.len() - i,
    {
        assert(s@.subrange(0, i + 1).drop_last() =~= s@.subrange(0, i as int));
        if s[i] == c {
            n = n + 1;
        }
        i = i + 1;
    }
    assert(s@.subrange(0, s.len() as int) =~= s@);
    n
}

/// Index of the first non-whitespace character at or after `start`.
pub fn skip_leading_space(s: &[char], start: usize) -> (a: usize)
    requires
        start <= s.len(),
    ensures
        a as int == first_non_space(s@, start as int),
        start <= a <= s.len(),
    decreases s.len() - start,
{
    if start >= s.len() {
        start
    } else if char_is_space(s[start]) {
        skip_leading_space(s, start + 1)
    } else {
        start
    }
}

/// One past the last non-whitespace character in `s[lo..end]`.
fn skip_trailing_space(s: &[char], lo: usize, end: usize) -> (b: usize)
    requires
        lo <= end <= s.len(),
    ensures
        b as int == last_non_space_end(s@, lo as int, end as int),
        lo <= b <= end,
    decreases end - lo,
{
    if end <= lo {
        lo
    } else if char_is_space(s[end - 1]) {
        skip_trailing_space(s, lo, end - 1)
    } else {
        end
    }
}

/// `s` without leading and trailing whitespace (`str::trim`).
pub fn trim_chars(s: &[char]) -> (t: Vec<char>)
    ensures
        t@ == trim(s@),
{
    let a = skip_leading_space(s, 0);
    let b = skip_trailing_space(s, a, s.len());
    copy_range(s, a, b)
}

/// Copy of `s[from..to]`.
pub fn copy_range(s: &[char], from: usize, to: usize) -> (v: Vec<char>)
    requires
        from <= to <= s.len(),
    ensures
        v@ == s@.subrange(from as int, to as int),
{
    let mut v: Vec<char> = Vec::new();
    let mut i: usize = from;
    while i < to
        invariant
            from <= i <= to,
            to <= s.len(),
            v@ == s@.subrange(from as int, i as int),
        decreases to - i,
    {
        v.push(s[i]);
        i = i + 1;
        assert(v@ =~= s@.subrange(from as int, i as int));
    }
    v
}

/// Index of the first `'\n'` at or after `i`, or `s.len()`.
fn find_newline(s: &[char], i: usize) -> (e: usize)
    requires
        i <= s.len(),
    ensures
        e as int == next_newline(s@, i as int),
        i <= e <= s.len(),
        e < s.len() ==> s@[e as int] == '\n',
    decreases s.len() - i,
{
    if i >= s.len() {
        i
    } else if s[i] == '\n' {
        i
    } else {
        find_newline(s, i + 1)
    }
}

/// The first `n` lines of `s` (`s.lines().take(n)`).
pub fn take_lines(s: &[char], n: usize) -> (out: Vec<Vec<char>>)
    ensures
        out@.len() <= n,
        char_vecs(out@) == first_lines(s@, n as nat),
{
    let mut out: Vec<Vec<char>> = Vec::new();
    let mut i: usize = 0;
    let ghost all = lines(s@);
    while i < s.len() && out.len() < n
        invariant
            i <= s.len(),
            out.len() <= n,
            all == lines(s@),
            all == char_vecs(out@) + lines_from(s@, i as int),
        decreases s.len() - i,
    {
        let e = find_newline(s, i);
        let body_end = if e < s.len() && e > i && s[e - 1] == '\r' {
            e - 1
        } else {
            e
        };
        let line = copy_range(s, i, body_end);
        let ghost before = char_vecs(out@);
        assert(line@ == line_body(s@, i as int, e as int));
        out.push(line);
        assert(char_vecs(out@) =~= before.push(line@));
        if e >= s.len() {
            assert(lines_from(s@, i as int) == seq![line@]);
            i = s.len();
            assert(lines_from(s@, i as int) =~= Seq::<Seq<char>>::empty());
            assert(all =~= char_vecs(out@) + lines_from(s@, i as int));
        } else {
            assert(lines_from(s@, i as int) == seq![line@] + lines_from(s@, e + 1));
            i = e + 1;
            assert(all =~= char_vecs(out@) + lines_from(s@, i as int));
        }
    }
    let ghost got = char_vecs(out@);
    if i >= s.len() {
        assert(lines_from(s@, i as int) =~= Seq::<Seq<char>>::empty());
        assert(all =~= got);
    } else {
        assert(got =~= all.take(n as int));
    }
    out
}

/// The decimal digits of `n` (`n.to_string()`).
pub fn decimal_chars(n: usize) -> (v: Vec<char>)
    ensures
        v@ == decimal(n as nat),
    decreases n,
{
    if n < 10 {
        let d = ((n as u8) + 48u8) as char;
        let mut v: Vec<char> = Vec::new();
        v.push(d);
        assert(v@ =~= decimal(n as nat));
        v
    } else {
        let mut v = decimal_chars(n / 10);
        let d = (((n % 10) as u8) + 48u8) as char;
        v.push(d);
        v
    }
}

/// The text of `head` followed by `tail`.
pub fn join_text(head: &str, tail: &str) -> (r: String)
    ensures
        r@ == head@ + tail@,
{
    let mut v = chars_of(head);
    append_chars(&mut v, chars_of(tail).as_slice());
    string_of(v.as_slice())
}

/// Appends `tail` to `v`.
pub fn append_chars(v: &mut Vec<char>, tail: &[char])
    ensures
        final(v)@ == old(v)@ + tail@,
{
    let mut i: usize = 0;
    let ghost start = v@;
    while i < tail.len()
        invariant
            i <= tail.len(),
            v@ == start + tail@.subrange(0, i as int),
        decreases tail.len() - i,
    {
        v.push(tail[i]);
        i = i + 1;
        assert(v@ =~= start + tail@.subrange(0, i as int));
    }
    assert(tail@.subrange(0, tail.len() as int) =~= tail@);
}

} // verus!
