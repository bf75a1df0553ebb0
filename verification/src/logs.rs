//! Log files: line statistics and the first tokens of the opening lines, where
//! a log usually carries its timestamps.

use vstd::prelude::*;

use crate::json::{blank_lines, line_statistics, longest, opt_text_of, spec_line_ending};
use crate::pickle::opt_text;
use crate::pickle::strings_view;
use crate::text::{
    char_is_space, char_vecs, chars_of, first_lines, first_non_space, is_space, lines,
    skip_leading_space, string_of, take_lines,
};
use vstd::string::StringSliceAdditionalSpecFns;

verus! {

/// Lines looked at for timestamps.
pub const TIMESTAMP_SAMPLE_LINES: usize = 10;

/// Log file metadata.
pub struct LogMetadata {
    pub byte_count: usize,
    pub line_count: usize,
    pub line_ending: Option<String>,
    pub max_line_length: Option<usize>,
    pub blank_line_count: Option<usize>,
    pub has_timestamps: Option<bool>,
}

/// Index of the first whitespace character at or after `i` (or `s.len()`).
pub open spec fn next_space(s: Seq<char>, i: int) -> int
    decreases s.len() - i,
{
    if i >= s.len() {
        i
    } else if is_space(s[i]) {
        i
    } else {
        next_space(s, i + 1)
    }
}

/// The first whitespace-separated token of a line, if it has one.
pub open spec fn first_token(s: Seq<char>) -> Option<Seq<char>> {
    let a = first_non_space(s, 0);
    if a >= s.len() {
        None
    } else {
        Some(s.subrange(a, next_space(s, a)))
    }
}

/// The first tokens of the lines that have one, in order.
pub open spec fn first_tokens(ls: Seq<Seq<char>>) -> Seq<Seq<char>>
    decreases ls.len(),
{
    if ls.len() == 0 {
        Seq::empty()
    } else {
        first_tokens(ls.drop_last()) + match first_token(ls.last()) {
            Some(t) => seq![t],
            None => Seq::empty(),
        }
    }
}

/// Index of the first whitespace character at or after `i`.
fn find_space(s: &[char], i: usize) -> (e: usize)
    requires
        i <= s.len(),
    ensures
        e as int == next_space(s@, i as int),
        i <= e <= s.len(),
    decreases s.len() - i,
{
    if i >= s.len() {
        i
    } else if char_is_space(s[i]) {
        i
    } else {
        find_space(s, i + 1)
    }
}

/// The first whitespace-separated token of a line.
pub fn line_first_token(line: &[char]) -> (r: Option<String>)
    ensures
        opt_text_of(r) == first_token(line@),
{
    let a = skip_leading_space(line, 0);
    if a >= line.len() {
        return None;
    }
    let e = find_space(line, a);
    let mut v: Vec<char> = Vec::new();
    let mut k: usize = a;
    while k < e
        invariant
            a <= k <= e <= line.len(),
            v@ == line@.subrange(a as int, k as int),
        decreases e - k,
    {
        v.push(line[k]);
        k = k + 1;
        assert(v@ =~= line@.subrange(a as int, k as int));
    }
    Some(string_of(v.as_slice()))
}

/// The first tokens of the first `TIMESTAMP_SAMPLE_LINES` lines (of those that
/// have one): the candidates for a timestamp or a date.
pub fn log_timestamp_candidates(content: &str) -> (r: Vec<String>)
    ensures
        strings_view(r@) == first_tokens(first_lines(content@, TIMESTAMP_SAMPLE_LINES as nat)),
{
    let text = chars_of(content);
    let ls = take_lines(text.as_slice(), TIMESTAMP_SAMPLE_LINES);
    let ghost lv = char_vecs(ls@);
    let mut r: Vec<String> = Vec::new();
    let mut i: usize = 0;
    while i < ls.len()
        invariant
            i <= ls.len(),
            lv == char_vecs(ls@),
            strings_view(r@) == first_tokens(lv.take(i as int)),
        decreases ls.len() - i,
    {
        assert(lv.take(i + 1).drop_last() =~= lv.take(i as int));
        assert(lv.take(i + 1).last() == ls@[i as int]@);
        let t = line_first_token(ls[i].as_slice());
        let ghost prev = r@;
        match t {
            Some(tok) => {
                r.push(tok);
                assert(strings_view(r@) =~= strings_view(prev) + seq![tok@]);
            },
            None => {},
        }
        i = i + 1;
    }
    assert(lv.take(i as int) =~= lv);
    r
}

/// Extracts log metadata: the line-ending style, longest and blank lines, and
/// `has_timestamps` as the caller found it among `log_timestamp_candidates`
/// (`byte_count` and `line_count` as the file statistics give them).
pub fn extract_log_metadata(content: &str, byte_count: usize, line_count: usize, has_timestamps: bool) -> (m: LogMetadata)
    ensures
        m.byte_count == byte_count,
        m.line_count == line_count,
        opt_text_of(m.line_ending) == spec_line_ending(content.spec_bytes()),
        m.max_line_length == (if lines(content@).len() > 0 {
            Some(longest(lines(content@)) as usize)
        } else {
            None
        }),
        m.blank_line_count == (if blank_lines(lines(content@)) > 0 {
            Some(blank_lines(lines(content@)) as usize)
        } else {
            None
        }),
        m.has_timestamps == Some(has_timestamps),
{
    let (line_ending, max_line_length, blank_line_count) = line_statistics(content);
    LogMetadata {
        byte_count,
        line_count,
        line_ending,
        max_line_length,
        blank_line_count,
        has_timestamps: Some(has_timestamps),
    }
}

// ---------------------------------------------------------------------------
// Position classification
// ---------------------------------------------------------------------------

/// The longest token count among the lines' tokens.
pub open spec fn max_tokens(ts: Seq<Seq<Seq<char>>>) -> nat
    decreases ts.len(),
{
    if ts.len() == 0 {
        0
    } else {
        let a = max_tokens(ts.drop_last());
        if ts.last().len() > a {
            ts.last().len()
        } else {
            a
        }
    }
}

/// Number of lines with a token at position `p`.
pub open spec fn lines_at(ts: Seq<Seq<Seq<char>>>, p: int) -> nat
    decreases ts.len(),
{
    if ts.len() == 0 {
        0
    } else {
        lines_at(ts.drop_last(), p) + if p < ts.last().len() {
            1nat
        } else {
            0nat
        }
    }
}

/// Every line with a token at position `p` has the token `w` there.
pub open spec fn all_same_at(ts: Seq<Seq<Seq<char>>>, p: int, w: Seq<char>) -> bool {
    forall|l: int| 0 <= l < ts.len() && p < ts[l].len() ==> (#[trigger] ts[l])[p] == w
}

/// The token at position `p` of the first line that has one.
pub open spec fn first_at(ts: Seq<Seq<Seq<char>>>, p: int) -> Seq<char>
    decreases ts.len(),
{
    if ts.len() == 0 {
        Seq::empty()
    } else if lines_at(ts.drop_last(), p) > 0 {
        first_at(ts.drop_last(), p)
    } else {
        ts.last()[p]
    }
}

/// How position `p` is classified: static, with its token, when the lines that
/// reach it all have the same token there and at least `threshold` lines do.
pub open spec fn classify_at(ts: Seq<Seq<Seq<char>>>, p: int, threshold: nat) -> (bool, Option<Seq<char>>) {
    let n = lines_at(ts, p);
    if n > 0 && all_same_at(ts, p, first_at(ts, p)) && n >= threshold {
        (true, Some(first_at(ts, p)))
    } else {
        (false, None)
    }
}

/// The classified positions: one for each position up to the longest line
/// (position 0 alone when no line has a token).
pub open spec fn spec_classifications(ts: Seq<Seq<Seq<char>>>, threshold: nat) -> Seq<(int, bool, Option<Seq<char>>)> {
    let n: int = if max_tokens(ts) == 0 {
        1
    } else {
        max_tokens(ts) as int
    };
    Seq::new(n as nat, |p: int| (p, classify_at(ts, p, threshold).0, classify_at(ts, p, threshold).1))
}

/// The whitespace-separated tokens of each line of a text.
pub open spec fn line_tokens(content: Seq<char>) -> Seq<Seq<Seq<char>>> {
    lines(content).map_values(|l: Seq<char>| crate::pivots::words(l))
}

/// Model of classifications.
pub open spec fn classifications_view(v: Seq<(usize, bool, Option<String>)>) -> Seq<(int, bool, Option<Seq<char>>)> {
    v.map_values(|c: (usize, bool, Option<String>)| (c.0 as int, c.1, opt_text(c.2)))
}

/// Classifies one position over the lines' tokens.
fn classify_position(toks: &Vec<Vec<Vec<char>>>, p: usize, threshold: usize) -> (r: (bool, Option<String>))
    ensures
        ({
            let ts = toks@.map_values(|l: Vec<Vec<char>>| char_vecs(l@));
            &&& r.0 == classify_at(ts, p as int, threshold as nat).0
            &&& opt_text(r.1) == classify_at(ts, p as int, threshold as nat).1
        }),
{
    let ghost ts = toks@.map_values(|l: Vec<Vec<char>>| char_vecs(l@));
    let mut count: usize = 0;
    let mut first: Vec<char> = Vec::new();
    let mut same = true;
    let mut l: usize = 0;
    while l < toks.len()
        invariant
            l <= toks.len(),
            ts == toks@.map_values(|x: Vec<Vec<char>>| char_vecs(x@)),
            count == lines_at(ts.take(l as int), p as int),
            count <= l,
            count > 0 ==> first@ == first_at(ts.take(l as int), p as int),
            count > 0 ==> (same <==> all_same_at(ts.take(l as int), p as int, first@)),
        decreases toks.len() - l,
    {
        let ghost t = ts.take(l + 1);
        assert(t.drop_last() =~= ts.take(l as int));
        assert(t.last() == char_vecs(toks@[l as int]@));
        if p < toks[l].len() {
            let w = &toks[l][p];
            assert(char_vecs(toks@[l as int]@)[p as int] == w@);
            if count == 0 {
                first = w.clone();
                same = true;
                proof {
                    assert forall|m: int| 0 <= m < t.len() && p < t[m].len() implies (#[trigger] t[m])[p as int] == first@ by {
                        if m < l {
                            assert(t[m] == ts.take(l as int)[m]);
                            lemma_lines_at_zero(ts.take(l as int), p as int, m);
                        }
                    }
                }
            } else {
                let eq = crate::csv::same_chars(w.as_slice(), first.as_slice());
                proof {
                    if same && eq {
                        assert forall|m: int| 0 <= m < t.len() && p < t[m].len() implies (#[trigger] t[m])[p as int] == first@ by {
                            if m < l {
                                assert(t[m] == ts.take(l as int)[m]);
                            }
                        }
                    }
                    if !(same && eq) {
                        if all_same_at(t, p as int, first@) {
                            if !same {
                                assert forall|m: int| 0 <= m < ts.take(l as int).len() && p < ts.take(l as int)[m].len() implies (
                                #[trigger] ts.take(l as int)[m])[p as int] == first@ by {
                                    assert(ts.take(l as int)[m] == t[m]);
                                }
                            } else {
                                assert(t[l as int][p as int] == first@);
                            }
                        }
                    }
                }
                same = same && eq;
            }
            count = count + 1;
        }
        l = l + 1;
    }
    assert(ts.take(l as int) =~= ts);
    if count > 0 && same && count >= threshold {
        (true, Some(string_of(first.as_slice())))
    } else {
        (false, None)
    }
}

proof fn lemma_lines_at_zero(ts: Seq<Seq<Seq<char>>>, p: int, m: int)
    requires
        lines_at(ts, p) == 0,
        0 <= m < ts.len(),
    ensures
        !(p < ts[m].len()),
    decreases ts.len(),
{
    if m < ts.len() - 1 {
        assert(ts.drop_last()[m] == ts[m]);
        lemma_lines_at_zero(ts.drop_last(), p, m);
    }
}

/// The whitespace-separated tokens of each line of a text.
pub(crate) fn tokenize_lines(content: &str) -> (toks: Vec<Vec<Vec<char>>>)
    ensures
        toks@.map_values(|l: Vec<Vec<char>>| char_vecs(l@)) == line_tokens(content@),
{
    let text = chars_of(content);
    let ls = crate::ini::all_lines(text.as_slice());
    let mut toks: Vec<Vec<Vec<char>>> = Vec::new();
    let mut i: usize = 0;
    while i < ls.len()
        invariant
            i <= ls.len(),
            char_vecs(ls@) == lines(content@),
            toks@.map_values(|l: Vec<Vec<char>>| char_vecs(l@)) == line_tokens(content@).take(i as int),
        decreases ls.len() - i,
    {
        let line = string_of(ls[i].as_slice());
        let ws = crate::pivots::split_words(line.as_str());
        let ghost prev = toks@;
        toks.push(ws);
        proof {
            let lt = line_tokens(content@);
            assert(lt.take(i + 1) =~= lt.take(i as int).push(lt[i as int]));
            assert(lt[i as int] == crate::pivots::words(ls@[i as int]@));
            assert(toks@.map_values(|l: Vec<Vec<char>>| char_vecs(l@)) =~= prev.map_values(|l: Vec<Vec<char>>| char_vecs(l@)).push(
                lt[i as int],
            ));
        }
        i = i + 1;
    }
    assert(line_tokens(content@).take(i as int) =~= line_tokens(content@));
    toks
}

/// Classifies the token positions of a log's lines: a position is static,
/// with its token, when every line reaching it has the same token there and at
/// least `threshold` lines do; otherwise it is dynamic.
pub fn classify_log_positions(content: &str, threshold: usize) -> (r: Vec<(usize, bool, Option<String>)>)
    ensures
        classifications_view(r@) == spec_classifications(line_tokens(content@), threshold as nat),
{
    let toks = tokenize_lines(content);
    let ghost ts = line_tokens(content@);
    let mut longest: usize = 0;
    let mut i: usize = 0;
    while i < toks.len()
        invariant
            i <= toks.len(),
            toks@.map_values(|l: Vec<Vec<char>>| char_vecs(l@)) == ts,
            longest == max_tokens(ts.take(i as int)),
        decreases toks.len() - i,
    {
        assert(ts.take(i + 1).drop_last() =~= ts.take(i as int));
        assert(ts.take(i + 1).last() == char_vecs(toks@[i as int]@));
        if toks[i].len() > longest {
            longest = toks[i].len();
        }
        i = i + 1;
    }
    assert(ts.take(i as int) =~= ts);
    let count: usize = if longest == 0 { 1 } else { longest };
    let mut r: Vec<(usize, bool, Option<String>)> = Vec::new();
    let mut p: usize = 0;
    while p < count
        invariant
            p <= count,
            count == (if max_tokens(ts) == 0 { 1 } else { max_tokens(ts) }),
            toks@.map_values(|l: Vec<Vec<char>>| char_vecs(l@)) == ts,
            classifications_view(r@) == spec_classifications(ts, threshold as nat).take(p as int),
        decreases count - p,
    {
        let (is_static, token) = classify_position(&toks, p, threshold);
        let ghost prev = r@;
        let entry = (p, is_static, token);
        r.push(entry);
        proof {
            assert(classifications_view(r@) =~= classifications_view(prev).push((p as int, entry.1, opt_text(entry.2))));
            assert(spec_classifications(ts, threshold as nat).take(p + 1) =~= spec_classifications(ts, threshold as nat).take(
                p as int,
            ).push(spec_classifications(ts, threshold as nat)[p as int]));
        }
        p = p + 1;
    }
    assert(spec_classifications(ts, threshold as nat).take(p as int) =~= spec_classifications(ts, threshold as nat));
    r
}

} // verus!
