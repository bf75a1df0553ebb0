//! Template mining for prose: normalizing the text, keeping sentence-like
//! segments, counting word n-grams and phrases, grouping sentences by pattern
//! (pivot-structured where a pivot word stands out, else n-gram based), and
//! turning frequent groups into templates with examples.

use vstd::prelude::*;
use vstd::string::StringSliceAdditionalSpecFns;
use vstd::utf8::encode_utf8;

use crate::ini::all_lines;
use crate::markdown::{line_texts, space_joined};
use crate::pickle::{opt_text, strings_view};
use crate::pivots::{alphanumeric, char_is_alphanumeric, pivot_key, pivot_key_text, split_words, words};
use crate::sorted_map::{entries_view, find_entry, find_key, find_key_from, lemma_find_key_from, map_get};
use crate::results::Template;
use crate::text_patterns::{
    build_text_pattern, examples_scan, examples_view, extract_text_examples, is_listed, join_words, listed,
    longest_ngram, pattern_parts, window_text,
};
use vstd::hash_map::StringHashMap;
use crate::text::{append_chars, char_vecs, chars_of, lines, string_of, trim, trim_chars};

verus! {

// ---------------------------------------------------------------------------
// Sentence-like segments
// ---------------------------------------------------------------------------

/// `s` has an alphanumeric character.
pub open spec fn has_alphanumeric(s: Seq<char>) -> bool {
    exists|i: int| 0 <= i < s.len() && alphanumeric(#[trigger] s[i])
}

/// A segment counts as a sentence when its trimmed text has at least
/// `min_words` words and an alphanumeric character, and either at least
/// `min_length` bytes or at least `min_words_alt` words.
pub open spec fn sentence_like(s: Seq<char>, min_words: usize, min_length: usize, min_words_alt: usize) -> bool {
    let t = trim(s);
    let wc = words(t).len();
    &&& wc >= min_words
    &&& has_alphanumeric(t)
    &&& (encode_utf8(t).len() >= min_length || wc >= min_words_alt)
}

/// The sentence-like segments of `ss`, in order.
pub open spec fn kept_sentences(ss: Seq<Seq<char>>, min_words: usize, min_length: usize, min_words_alt: usize) -> Seq<Seq<char>>
    decreases ss.len(),
{
    if ss.len() == 0 {
        ss
    } else if sentence_like(ss.last(), min_words, min_length, min_words_alt) {
        kept_sentences(ss.drop_last(), min_words, min_length, min_words_alt).push(ss.last())
    } else {
        kept_sentences(ss.drop_last(), min_words, min_length, min_words_alt)
    }
}

/// Whether `s` has an alphanumeric character.
pub fn has_alphanumeric_char(s: &[char]) -> (r: bool)
    ensures
        r == has_alphanumeric(s@),
{
    let mut i: usize = 0;
    while i < s.len()
        invariant
            i <= s.len(),
            forall|k: int| 0 <= k < i ==> !alphanumeric(#[trigger] s@[k]),
        decreases s.len() - i,
    {
        if char_is_alphanumeric(s[i]) {
            return true;
        }
        i = i + 1;
    }
    false
}

/// Whether a segment counts as a sentence.
pub fn is_sentence_like(sentence: &str, min_words: usize, min_length: usize, min_words_alt: usize) -> (r: bool)
    ensures
        r == sentence_like(sentence@, min_words, min_length, min_words_alt),
{
    let t = trim_chars(chars_of(sentence).as_slice());
    let ts = string_of(t.as_slice());
    let st = ts.as_str();
    let ws = split_words(st);
    let wc = ws.len();
    let nbytes = st.as_bytes().len();
    proof {
        assert(st.spec_bytes() == encode_utf8(st@));
        assert(char_vecs(ws@).len() == ws@.len());
        assert(st@ == trim(sentence@));
    }
    wc >= min_words && has_alphanumeric_char(t.as_slice()) && (nbytes >= min_length || wc >= min_words_alt)
}

/// Keeps the sentence-like segments, in order.
pub fn filter_sentences_before_ngrams(
    sentences: &mut Vec<String>,
    min_sentence_words: usize,
    min_sentence_length: usize,
    min_sentence_words_alt: usize,
)
    ensures
        strings_view(final(sentences)@) == kept_sentences(
            strings_view(old(sentences)@),
            min_sentence_words,
            min_sentence_length,
            min_sentence_words_alt,
        ),
{
    let ghost all = strings_view(sentences@);
    let mut kept: Vec<String> = Vec::new();
    let mut i: usize = 0;
    while i < sentences.len()
        invariant
            i <= sentences.len(),
            all == strings_view(sentences@),
            strings_view(kept@) == kept_sentences(
                all.take(i as int),
                min_sentence_words,
                min_sentence_length,
                min_sentence_words_alt,
            ),
        decreases sentences.len() - i,
    {
        assert(all.take(i + 1).drop_last() =~= all.take(i as int));
        if is_sentence_like(sentences[i].as_str(), min_sentence_words, min_sentence_length, min_sentence_words_alt) {
            let ghost prev = kept@;
            kept.push(sentences[i].clone());
            assert(strings_view(kept@) =~= strings_view(prev).push(all[i as int]));
        }
        i = i + 1;
    }
    assert(all.take(i as int) =~= all);
    *sentences = kept;
}

// ---------------------------------------------------------------------------
// Normalized text
// ---------------------------------------------------------------------------

/// The trimmed lines that have an alphanumeric character.
pub open spec fn content_lines(ls: Seq<Seq<char>>) -> Seq<Seq<char>>
    decreases ls.len(),
{
    if ls.len() == 0 {
        ls
    } else if has_alphanumeric(trim(ls.last())) {
        content_lines(ls.drop_last()).push(trim(ls.last()))
    } else {
        content_lines(ls.drop_last())
    }
}

/// The text with its lines trimmed, the lines without an alphanumeric character
/// left out, and the rest joined by single spaces.
pub open spec fn normalized_content(content: Seq<char>) -> Seq<char> {
    space_joined(content_lines(lines(content)))
}

/// The parts joined with single spaces.
pub fn join_spaced(parts: &Vec<Vec<char>>) -> (out: Vec<char>)
    ensures
        out@ == space_joined(char_vecs(parts@)),
{
    let ghost cv = char_vecs(parts@);
    let mut out: Vec<char> = Vec::new();
    let mut k: usize = 0;
    while k < parts.len()
        invariant
            k <= parts.len(),
            cv == char_vecs(parts@),
            out@ == space_joined(cv.take(k as int)),
        decreases parts.len() - k,
    {
        if k > 0 {
            out.push(' ');
        }
        append_chars(&mut out, parts[k].as_slice());
        assert(cv.take(k + 1).drop_last() =~= cv.take(k as int));
        k = k + 1;
    }
    assert(cv.take(k as int) =~= cv);
    out
}

/// Normalizes prose: trims each line, drops the lines without an alphanumeric
/// character, and joins the rest with single spaces.
pub fn normalize_text_content(content: &str) -> (r: String)
    ensures
        r@ == normalized_content(content@),
{
    let ls = all_lines(chars_of(content).as_slice());
    let ghost lv = char_vecs(ls@);
    let mut kept: Vec<Vec<char>> = Vec::new();
    let mut i: usize = 0;
    while i < ls.len()
        invariant
            i <= ls.len(),
            lv == char_vecs(ls@),
            lv == lines(content@),
            char_vecs(kept@) == content_lines(lv.take(i as int)),
        decreases ls.len() - i,
    {
        assert(lv.take(i + 1).drop_last() =~= lv.take(i as int));
        let t = trim_chars(ls[i].as_slice());
        if has_alphanumeric_char(t.as_slice()) {
            let ghost prev = char_vecs(kept@);
            kept.push(t);
            assert(char_vecs(kept@) =~= prev.push(trim(lv[i as int])));
        }
        i = i + 1;
    }
    assert(lv.take(i as int) =~= lv);
    let out = join_spaced(&kept);
    string_of(out.as_slice())
}

// ---------------------------------------------------------------------------
// Tokens
// ---------------------------------------------------------------------------

/// The whitespace-separated words of each sentence.
pub fn precompute_sentence_tokens(sentences: &[String]) -> (r: Vec<Vec<String>>)
    ensures
        r.len() == sentences.len(),
        forall|i: int| 0 <= i < r.len() ==> strings_view(#[trigger] r[i]@) == words(sentences[i]@),
{
    let mut r: Vec<Vec<String>> = Vec::new();
    let mut i: usize = 0;
    while i < sentences.len()
        invariant
            i <= sentences.len(),
            r.len() == i,
            forall|k: int| 0 <= k < i ==> strings_view(#[trigger] r[k]@) == words(sentences[k]@),
        decreases sentences.len() - i,
    {
        let ws = split_words(sentences[i].as_str());
        let ghost wv = char_vecs(ws@);
        let mut toks: Vec<String> = Vec::new();
        let mut k: usize = 0;
        while k < ws.len()
            invariant
                k <= ws.len(),
                wv == char_vecs(ws@),
                strings_view(toks@) == wv.take(k as int),
            decreases ws.len() - k,
        {
            let w = string_of(ws[k].as_slice());
            let ghost prev = toks@;
            toks.push(w);
            assert(strings_view(toks@) =~= strings_view(prev).push(wv[k as int]));
            assert(wv.take(k + 1) =~= wv.take(k as int).push(wv[k as int]));
            k = k + 1;
        }
        assert(wv.take(k as int) =~= wv);
        r.push(toks);
        i = i + 1;
    }
    r
}

// ---------------------------------------------------------------------------
// N-gram and phrase counts
// ---------------------------------------------------------------------------

/// `c + 1`, held at `usize::MAX`.
pub open spec fn count_up(c: usize) -> usize {
    if c < usize::MAX {
        (c + 1) as usize
    } else {
        c
    }
}

/// Counts one more occurrence of `k`: its entry goes up by one, or a new entry
/// `(k, 1)` comes last (entries stay in order of first occurrence).
pub open spec fn tally(u: Seq<(Seq<char>, usize)>, k: Seq<char>) -> Seq<(Seq<char>, usize)> {
    let j = find_key(u, k);
    if j < u.len() {
        u.update(j, (k, count_up(u[j].1)))
    } else {
        u.push((k, 1usize))
    }
}

/// Number of windows of `n` words in `len` words.
pub open spec fn window_count(len: int, n: int) -> int {
    if n <= len {
        len - n + 1
    } else {
        0
    }
}

/// The first `k` windows of `n` words of `ts` tallied, left to right.
pub open spec fn tally_windows(u: Seq<(Seq<char>, usize)>, ts: Seq<Seq<char>>, n: int, k: int) -> Seq<(Seq<char>, usize)>
    decreases k,
{
    if k <= 0 {
        u
    } else {
        tally(tally_windows(u, ts, n, k - 1), window_text(ts, k - 1, n))
    }
}

/// The windows of every size from `lo` to `hi` tallied, smaller sizes first.
pub open spec fn tally_sizes(u: Seq<(Seq<char>, usize)>, ts: Seq<Seq<char>>, lo: int, hi: int) -> Seq<(Seq<char>, usize)>
    decreases hi - lo + 1,
{
    if hi < lo {
        u
    } else {
        tally_windows(tally_sizes(u, ts, lo, hi - 1), ts, hi, window_count(ts.len() as int, hi))
    }
}

/// Counts of the word n-grams (`lo` to `hi` words) of the sentences, in order
/// of first occurrence.
pub open spec fn ngram_counts(ss: Seq<Seq<char>>, lo: int, hi: int) -> Seq<(Seq<char>, usize)>
    decreases ss.len(),
{
    if ss.len() == 0 {
        Seq::empty()
    } else {
        tally_sizes(ngram_counts(ss.drop_last(), lo, hi), words(ss.last()), lo, hi)
    }
}

/// Counts of the phrases (windows of `plen` words) of the sentences, in order
/// of first occurrence.
pub open spec fn phrase_counts(ss: Seq<Seq<char>>, plen: int) -> Seq<(Seq<char>, usize)>
    decreases ss.len(),
{
    if ss.len() == 0 {
        Seq::empty()
    } else {
        let w = words(ss.last());
        tally_windows(phrase_counts(ss.drop_last(), plen), w, plen, window_count(w.len() as int, plen))
    }
}

/// Sizes beyond the number of words have no windows.
proof fn lemma_sizes_beyond(u: Seq<(Seq<char>, usize)>, ts: Seq<Seq<char>>, lo: int, a: int, m: int)
    requires
        a >= ts.len(),
        lo - 1 <= a <= m,
    ensures
        tally_sizes(u, ts, lo, m) == tally_sizes(u, ts, lo, a),
    decreases m - a,
{
    if m > a {
        lemma_sizes_beyond(u, ts, lo, a, m - 1);
    }
}

/// The map indexes the entries: each key maps to the place of its entry.
pub open spec fn indexes<V>(m: Map<Seq<char>, usize>, e: Seq<(Seq<char>, V)>) -> bool {
    &&& forall|i: int| 0 <= i < e.len() ==> #[trigger] m.contains_key(e[i].0) && m[e[i].0] == i
    &&& forall|k: Seq<char>| #[trigger] m.contains_key(k) ==> m[k] < e.len() && e[m[k] as int].0 == k
}

pub proof fn lemma_indexed_find<V>(m: Map<Seq<char>, usize>, e: Seq<(Seq<char>, V)>, k: Seq<char>)
    requires
        indexes(m, e),
    ensures
        find_key(e, k) == (if m.contains_key(k) {
            m[k] as int
        } else {
            e.len() as int
        }),
{
    lemma_find_key_from(e, k, 0);
    let j = find_key(e, k);
    if j < e.len() {
        assert(m.contains_key(e[j].0));
    } else if m.contains_key(k) {
        assert(e[m[k] as int].0 == k);
    }
}

/// Counts one more occurrence of `k`.
fn tally_key(m: &mut StringHashMap<usize>, u: &mut Vec<(String, usize)>, k: String)
    requires
        indexes(old(m)@, entries_view(old(u)@)),
    ensures
        indexes(final(m)@, entries_view(final(u)@)),
        entries_view(final(u)@) == tally(entries_view(old(u)@), k@),
{
    let ghost e = entries_view(u@);
    proof {
        lemma_indexed_find(m@, e, k@);
    }
    match m.get(k.as_str()) {
        Some(jr) => {
            let j = *jr;
            let c = u[j].1;
            let nc = if c < usize::MAX {
                c + 1
            } else {
                c
            };
            u.set(j, (k, nc));
            assert(entries_view(u@) =~= e.update(j as int, (e[j as int].0, count_up(c))));
        },
        None => {
            let len = u.len();
            u.push((k.clone(), 1));
            m.insert(k, len);
            assert(entries_view(u@) =~= e.push((k@, 1usize)));
            assert forall|i: int| 0 <= i < entries_view(u@).len() implies #[trigger] m@.contains_key(
                entries_view(u@)[i].0,
            ) && m@[entries_view(u@)[i].0] == i by {
                if i < e.len() {
                    assert(old(m)@.contains_key(e[i].0));
                }
            }
        },
    }
}

/// The words `ws[i..i + n]` joined with single spaces.
fn window_chars(ws: &Vec<Vec<char>>, i: usize, n: usize) -> (r: Vec<char>)
    requires
        i + n <= ws.len(),
    ensures
        r@ == window_text(char_vecs(ws@), i as int, n as int),
{
    let ghost ts = char_vecs(ws@);
    let mut r: Vec<char> = Vec::new();
    let mut k: usize = i;
    while k < i + n
        invariant
            i <= k <= i + n <= ws.len(),
            ts == char_vecs(ws@),
            r@ == space_joined(ts.subrange(i as int, k as int)),
        decreases i + n - k,
    {
        if k > i {
            r.push(' ');
        }
        append_chars(&mut r, ws[k].as_slice());
        assert(ts.subrange(i as int, k + 1).drop_last() =~= ts.subrange(i as int, k as int));
        k = k + 1;
    }
    r
}

/// Tallies the windows of `n` words of a sentence.
fn tally_window_size(m: &mut StringHashMap<usize>, u: &mut Vec<(String, usize)>, ws: &Vec<Vec<char>>, n: usize)
    requires
        indexes(old(m)@, entries_view(old(u)@)),
        1 <= n <= ws.len(),
    ensures
        indexes(final(m)@, entries_view(final(u)@)),
        entries_view(final(u)@) == tally_windows(
            entries_view(old(u)@),
            char_vecs(ws@),
            n as int,
            window_count(ws.len() as int, n as int),
        ),
{
    let ghost u0 = entries_view(u@);
    let ghost ts = char_vecs(ws@);
    let count = ws.len() - n + 1;
    let mut k: usize = 0;
    while k < count
        invariant
            k <= count == ws.len() - n + 1,
            1 <= n <= ws.len(),
            ts == char_vecs(ws@),
            indexes(m@, entries_view(u@)),
            entries_view(u@) == tally_windows(u0, ts, n as int, k as int),
        decreases count - k,
    {
        let w = window_chars(ws, k, n);
        tally_key(m, u, string_of(w.as_slice()));
        k = k + 1;
    }
}

/// Tallies the windows of every size from `lo` to `hi` of a sentence.
fn tally_all_sizes(m: &mut StringHashMap<usize>, u: &mut Vec<(String, usize)>, ws: &Vec<Vec<char>>, lo: usize, hi: usize)
    requires
        indexes(old(m)@, entries_view(old(u)@)),
        lo >= 1,
    ensures
        indexes(final(m)@, entries_view(final(u)@)),
        entries_view(final(u)@) == tally_sizes(entries_view(old(u)@), char_vecs(ws@), lo as int, hi as int),
{
    let ghost u0 = entries_view(u@);
    let ghost ts = char_vecs(ws@);
    let top = if hi < ws.len() {
        hi
    } else {
        ws.len()
    };
    let mut n = lo;
    let mut done = lo > top;
    while !done
        invariant
            lo >= 1,
            top <= hi,
            top <= ws.len(),
            top == hi || top == ws.len(),
            ts == char_vecs(ws@),
            indexes(m@, entries_view(u@)),
            done ==> entries_view(u@) == tally_sizes(u0, ts, lo as int, if lo > top {
                lo - 1
            } else {
                top as int
            }),
            !done ==> lo <= n <= top && entries_view(u@) == tally_sizes(u0, ts, lo as int, n - 1),
        decreases (top - n) * 2 + (if done {
            0int
        } else {
            1int
        }),
    {
        tally_window_size(m, u, ws, n);
        if n == top {
            done = true;
        } else {
            n = n + 1;
        }
    }
    proof {
        let a: int = if lo > top {
            lo - 1
        } else {
            top as int
        };
        if (hi as int) < (lo as int) {
            assert(tally_sizes(u0, ts, lo as int, hi as int) == u0);
            assert(tally_sizes(u0, ts, lo as int, lo - 1) == u0);
        } else if top == hi {
        } else {
            lemma_sizes_beyond(u0, ts, lo as int, a, hi as int);
        }
    }
}

/// Counts the word n-grams (`min_ngram_size` to `max_ngram_size` words) and the
/// phrases (`min_phrase_length` words) of the sentences: each distinct text with
/// its number of occurrences, in order of first occurrence.
pub fn ngram_and_phrase_frequencies(
    sentences: &[String],
    min_ngram_size: usize,
    max_ngram_size: usize,
    min_phrase_length: usize,
) -> (r: (Vec<(String, usize)>, Vec<(String, usize)>))
    requires
        min_ngram_size >= 1,
        min_phrase_length >= 1,
    ensures
        entries_view(r.0@) == ngram_counts(strings_view(sentences@), min_ngram_size as int, max_ngram_size as int),
        entries_view(r.1@) == phrase_counts(strings_view(sentences@), min_phrase_length as int),
{
    let ghost ss = strings_view(sentences@);
    let mut nm: StringHashMap<usize> = StringHashMap::new();
    let mut nu: Vec<(String, usize)> = Vec::new();
    let mut pm: StringHashMap<usize> = StringHashMap::new();
    let mut pu: Vec<(String, usize)> = Vec::new();
    let mut i: usize = 0;
    while i < sentences.len()
        invariant
            i <= sentences.len(),
            ss == strings_view(sentences@),
            min_ngram_size >= 1,
            min_phrase_length >= 1,
            indexes(nm@, entries_view(nu@)),
            indexes(pm@, entries_view(pu@)),
            entries_view(nu@) == ngram_counts(ss.take(i as int), min_ngram_size as int, max_ngram_size as int),
            entries_view(pu@) == phrase_counts(ss.take(i as int), min_phrase_length as int),
        decreases sentences.len() - i,
    {
        assert(ss.take(i + 1).drop_last() =~= ss.take(i as int));
        let ws = split_words(sentences[i].as_str());
        tally_all_sizes(&mut nm, &mut nu, &ws, min_ngram_size, max_ngram_size);
        if ws.len() >= min_phrase_length {
            tally_window_size(&mut pm, &mut pu, &ws, min_phrase_length);
        }
        i = i + 1;
    }
    assert(ss.take(i as int) =~= ss);
    (nu, pu)
}

/// The entries counted at least `threshold` times, in order.
pub open spec fn at_least(u: Seq<(Seq<char>, usize)>, threshold: usize) -> Seq<(Seq<char>, usize)>
    decreases u.len(),
{
    if u.len() == 0 {
        u
    } else if u.last().1 >= threshold {
        at_least(u.drop_last(), threshold).push(u.last())
    } else {
        at_least(u.drop_last(), threshold)
    }
}

/// The entries counted at least `threshold` times, in order.
pub fn frequent_entries(freq: &[(String, usize)], threshold: usize) -> (r: Vec<(String, usize)>)
    ensures
        entries_view(r@) == at_least(entries_view(freq@), threshold),
{
    let ghost e = entries_view(freq@);
    let mut r: Vec<(String, usize)> = Vec::new();
    let mut i: usize = 0;
    while i < freq.len()
        invariant
            i <= freq.len(),
            e == entries_view(freq@),
            entries_view(r@) == at_least(e.take(i as int), threshold),
        decreases freq.len() - i,
    {
        assert(e.take(i + 1).drop_last() =~= e.take(i as int));
        if freq[i].1 >= threshold {
            let ghost prev = entries_view(r@);
            r.push((freq[i].0.clone(), freq[i].1));
            assert(entries_view(r@) =~= prev.push(e[i as int]));
        }
        i = i + 1;
    }
    assert(e.take(i as int) =~= e);
    r
}

// ---------------------------------------------------------------------------
// Pivot-structured patterns
// ---------------------------------------------------------------------------

/// The strongest pivot among the first `k` words: the first position whose
/// `P_<position>_<word>` key has the highest score, with that score (position
/// -1 and score 0 when no key scores above zero).
pub open spec fn best_pivot(ts: Seq<Seq<char>>, pv: Seq<(Seq<char>, usize)>, k: int) -> (int, usize)
    decreases k,
{
    if k <= 0 {
        (-1, 0usize)
    } else {
        let b = best_pivot(ts, pv, k - 1);
        match map_get(pv, pivot_key(k - 1, ts[k - 1])) {
            Some(score) => if score > b.1 {
                (k - 1, score)
            } else {
                b
            },
            None => b,
        }
    }
}

proof fn lemma_best_pivot_bounds(ts: Seq<Seq<char>>, pv: Seq<(Seq<char>, usize)>, k: int)
    requires
        k >= 0,
    ensures
        -1 <= best_pivot(ts, pv, k).0 < k,
        best_pivot(ts, pv, k).0 == -1 <==> best_pivot(ts, pv, k).1 == 0,
    decreases k,
{
    if k > 0 {
        lemma_best_pivot_bounds(ts, pv, k - 1);
    }
}

/// The longest `n` from `hi` down to `lo` whose `n` words ending just before
/// position `p` are listed.
pub open spec fn longest_ending(ts: Seq<Seq<char>>, p: int, lo: int, hi: int, ngrams: Seq<(String, usize)>) -> Option<int>
    decreases hi + 1 - lo,
{
    if hi < lo {
        None
    } else if 0 <= p - hi && is_listed(ngrams, window_text(ts, p - hi, hi)) {
        Some(hi)
    } else {
        longest_ending(ts, p, lo, hi - 1, ngrams)
    }
}

proof fn lemma_longest_ending_bounds(ts: Seq<Seq<char>>, p: int, lo: int, hi: int, ngrams: Seq<(String, usize)>)
    ensures
        longest_ending(ts, p, lo, hi, ngrams) matches Some(n) ==> lo <= n <= hi && 0 <= p - n,
    decreases hi + 1 - lo,
{
    if hi >= lo {
        lemma_longest_ending_bounds(ts, p, lo, hi - 1, ngrams);
    }
}

/// The parts of a pivot-structured pattern around the pivot word at `p`: before
/// it, the longest frequent n-gram ending there (after `[PREFIX]` if words come
/// before it), else the words themselves when at most `short` of them, else
/// `[PREFIX]`; then the pivot word; after it, the longest frequent n-gram
/// starting there (then `[SUFFIX]` if words follow), else the words when at
/// most `short`, else `[SUFFIX]`.
pub open spec fn structural_parts(
    ts: Seq<Seq<char>>,
    p: int,
    ngrams: Seq<(String, usize)>,
    lo: int,
    hi: int,
    short: int,
) -> Seq<Seq<char>> {
    let pre = if p <= 0 {
        Seq::empty()
    } else {
        match longest_ending(ts, p, lo, hi, ngrams) {
            Some(n) => (if p > n {
                seq!["[PREFIX]"@]
            } else {
                Seq::empty()
            }) + seq![window_text(ts, p - n, n)],
            None => if p <= short {
                seq![space_joined(ts.take(p))]
            } else {
                seq!["[PREFIX]"@]
            },
        }
    };
    let rem = ts.len() - p - 1;
    let post = if rem <= 0 {
        Seq::empty()
    } else {
        match longest_ngram(ts, p + 1, lo, hi, ngrams) {
            Some(n) => seq![window_text(ts, p + 1, n)] + (if rem > n {
                seq!["[SUFFIX]"@]
            } else {
                Seq::empty()
            }),
            None => if rem <= short {
                seq![space_joined(ts.skip(p + 1))]
            } else {
                seq!["[SUFFIX]"@]
            },
        }
    };
    pre + seq![ts[p]] + post
}

/// The pivot-structured pattern of a sentence's words, where its strongest
/// pivot scores at least `threshold`.
pub open spec fn spec_structural_pattern(
    ts: Seq<Seq<char>>,
    pv: Seq<(Seq<char>, usize)>,
    ngrams: Seq<(String, usize)>,
    threshold: usize,
    lo: int,
    hi: int,
    short: int,
) -> Option<Seq<char>> {
    let b = best_pivot(ts, pv, ts.len() as int);
    if ts.len() == 0 || b.0 < 0 || b.1 < threshold {
        None
    } else {
        Some(space_joined(structural_parts(ts, b.0, ngrams, lo, hi, short)))
    }
}

/// Pushes the text of `v` as a part.
fn push_part(parts: &mut Vec<Vec<char>>, v: Vec<char>)
    ensures
        char_vecs(final(parts)@) == char_vecs(old(parts)@).push(v@),
{
    let ghost prev = char_vecs(parts@);
    parts.push(v);
    assert(char_vecs(parts@) =~= prev.push(v@));
}

/// The part of a pivot-structured pattern before the pivot at `p`.
fn prefix_parts(
    tokens: &[&str],
    p: usize,
    frequent_ngrams: &[(String, usize)],
    min_ngram_size: usize,
    max_ngram_size: usize,
    short_prefix_threshold: usize,
    parts: &mut Vec<Vec<char>>,
)
    requires
        0 < p < tokens.len(),
    ensures
        char_vecs(final(parts)@) == char_vecs(old(parts)@) + (match longest_ending(
            line_texts(tokens@),
            p as int,
            min_ngram_size as int,
            max_ngram_size as int,
            frequent_ngrams@,
        ) {
            Some(n) => (if p > n {
                seq!["[PREFIX]"@]
            } else {
                Seq::empty()
            }) + seq![window_text(line_texts(tokens@), p - n, n)],
            None => if p <= short_prefix_threshold {
                seq![space_joined(line_texts(tokens@).take(p as int))]
            } else {
                seq!["[PREFIX]"@]
            },
        }),
{
    proof {
        reveal_strlit("[PREFIX]");
    }
    let ghost ts = line_texts(tokens@);
    let ghost lo = min_ngram_size as int;
    let ghost start = char_vecs(parts@);
    let top = if max_ngram_size < p {
        max_ngram_size
    } else {
        p
    };
    proof {
        lemma_ending_above(ts, p as int, lo, top as int, max_ngram_size as int, frequent_ngrams@);
    }
    if min_ngram_size <= top {
        let mut n = top;
        loop
            invariant
                min_ngram_size <= n <= top <= p < tokens.len(),
                ts == line_texts(tokens@),
                lo == min_ngram_size as int,
                start == char_vecs(old(parts)@),
                char_vecs(parts@) == start,
                longest_ending(ts, p as int, lo, max_ngram_size as int, frequent_ngrams@) == longest_ending(
                    ts,
                    p as int,
                    lo,
                    n as int,
                    frequent_ngrams@,
                ),
            ensures
                char_vecs(parts@) == start,
                longest_ending(ts, p as int, lo, max_ngram_size as int, frequent_ngrams@) is None,
            decreases n,
        {
            let candidate = join_words(tokens, p - n, n);
            let found = listed(frequent_ngrams, &candidate);
            proof {
                assert(candidate@ == window_text(ts, p - n, n as int));
            }
            if found {
                let ghost cv = candidate@;
                assert(longest_ending(ts, p as int, lo, n as int, frequent_ngrams@) == Some(n as int));
                if p > n {
                    push_part(parts, chars_of("[PREFIX]"));
                    assert(char_vecs(parts@) == start + seq!["[PREFIX]"@]);
                    push_part(parts, candidate);
                    assert(char_vecs(parts@) =~= start + (seq!["[PREFIX]"@] + seq![cv]));
                } else {
                    push_part(parts, candidate);
                    assert(char_vecs(parts@) =~= start + (Seq::<Seq<char>>::empty() + seq![cv]));
                }
                return;
            }
            assert(longest_ending(ts, p as int, lo, n as int, frequent_ngrams@) == longest_ending(
                ts,
                p as int,
                lo,
                n - 1,
                frequent_ngrams@,
            ));
            if n == min_ngram_size {
                assert(longest_ending(ts, p as int, lo, n - 1, frequent_ngrams@) is None);
                break;
            }
            n = n - 1;
        }
    }
    assert(longest_ending(ts, p as int, lo, max_ngram_size as int, frequent_ngrams@) is None);
    if p <= short_prefix_threshold {
        let w = join_words(tokens, 0, p);
        assert(ts.subrange(0, p as int) =~= ts.take(p as int));
        push_part(parts, w);
        assert(char_vecs(parts@) =~= start + seq![space_joined(ts.take(p as int))]);
    } else {
        push_part(parts, chars_of("[PREFIX]"));
        assert(char_vecs(parts@) =~= start + seq!["[PREFIX]"@]);
    }
}

proof fn lemma_ending_above(ts: Seq<Seq<char>>, p: int, lo: int, top: int, h: int, ngrams: Seq<(String, usize)>)
    requires
        top >= p || top >= h,
        0 <= p,
    ensures
        top <= h ==> longest_ending(ts, p, lo, h, ngrams) == longest_ending(ts, p, lo, top, ngrams),
    decreases h - top,
{
    if top < h {
        lemma_ending_above(ts, p, lo, top, h - 1, ngrams);
    }
}

proof fn lemma_ngram_above(ts: Seq<Seq<char>>, i: int, lo: int, top: int, h: int, ngrams: Seq<(String, usize)>)
    requires
        top >= ts.len() - i || top >= h,
    ensures
        top <= h ==> longest_ngram(ts, i, lo, h, ngrams) == longest_ngram(ts, i, lo, top, ngrams),
    decreases h - top,
{
    if top < h {
        lemma_ngram_above(ts, i, lo, top, h - 1, ngrams);
    }
}

/// The part of a pivot-structured pattern after the pivot at `p`.
fn suffix_parts(
    tokens: &[&str],
    p: usize,
    frequent_ngrams: &[(String, usize)],
    min_ngram_size: usize,
    max_ngram_size: usize,
    short_prefix_threshold: usize,
    parts: &mut Vec<Vec<char>>,
)
    requires
        p + 1 < tokens.len(),
    ensures
        char_vecs(final(parts)@) == char_vecs(old(parts)@) + (match longest_ngram(
            line_texts(tokens@),
            p + 1,
            min_ngram_size as int,
            max_ngram_size as int,
            frequent_ngrams@,
        ) {
            Some(n) => seq![window_text(line_texts(tokens@), p + 1, n)] + (if tokens.len() - p - 1 > n {
                seq!["[SUFFIX]"@]
            } else {
                Seq::empty()
            }),
            None => if tokens.len() - p - 1 <= short_prefix_threshold {
                seq![space_joined(line_texts(tokens@).skip(p + 1))]
            } else {
                seq!["[SUFFIX]"@]
            },
        }),
{
    proof {
        reveal_strlit("[SUFFIX]");
    }
    let ghost ts = line_texts(tokens@);
    let ghost lo = min_ngram_size as int;
    let ghost start = char_vecs(parts@);
    let rem = tokens.len() - p - 1;
    let top = if max_ngram_size < rem {
        max_ngram_size
    } else {
        rem
    };
    proof {
        lemma_ngram_above(ts, p + 1, lo, top as int, max_ngram_size as int, frequent_ngrams@);
    }
    if min_ngram_size <= top {
        let mut n = top;
        loop
            invariant
                min_ngram_size <= n <= top <= rem,
                rem == tokens.len() - p - 1,
                p + 1 < tokens.len(),
                ts == line_texts(tokens@),
                lo == min_ngram_size as int,
                start == char_vecs(old(parts)@),
                char_vecs(parts@) == start,
                longest_ngram(ts, p + 1, lo, max_ngram_size as int, frequent_ngrams@) == longest_ngram(
                    ts,
                    p + 1,
                    lo,
                    n as int,
                    frequent_ngrams@,
                ),
            ensures
                char_vecs(parts@) == start,
                longest_ngram(ts, p + 1, lo, max_ngram_size as int, frequent_ngrams@) is None,
            decreases n,
        {
            let candidate = join_words(tokens, p + 1, n);
            let found = listed(frequent_ngrams, &candidate);
            if found {
                let ghost cv = candidate@;
                assert(longest_ngram(ts, p + 1, lo, n as int, frequent_ngrams@) == Some(n as int));
                push_part(parts, candidate);
                if rem > n {
                    push_part(parts, chars_of("[SUFFIX]"));
                    assert(char_vecs(parts@) =~= start + (seq![cv] + seq!["[SUFFIX]"@]));
                } else {
                    assert(char_vecs(parts@) =~= start + (seq![cv] + Seq::<Seq<char>>::empty()));
                }
                return;
            }
            assert(longest_ngram(ts, p + 1, lo, n as int, frequent_ngrams@) == longest_ngram(
                ts,
                p + 1,
                lo,
                n - 1,
                frequent_ngrams@,
            ));
            if n == min_ngram_size {
                assert(longest_ngram(ts, p + 1, lo, n - 1, frequent_ngrams@) is None);
                break;
            }
            n = n - 1;
        }
    }
    assert(longest_ngram(ts, p + 1, lo, max_ngram_size as int, frequent_ngrams@) is None);
    if rem <= short_prefix_threshold {
        let w = join_words(tokens, p + 1, rem);
        assert(ts.subrange(p + 1, p + 1 + rem) =~= ts.skip(p + 1));
        push_part(parts, w);
        assert(char_vecs(parts@) =~= start + seq![space_joined(ts.skip(p + 1))]);
    } else {
        push_part(parts, chars_of("[SUFFIX]"));
        assert(char_vecs(parts@) =~= start + seq!["[SUFFIX]"@]);
    }
}

/// Builds a pivot-structured pattern for a sentence's words: finds the word
/// whose `P_<position>_<word>` key has the highest pivot score (the first such
/// position); when that score is at least `threshold`, the pattern is the
/// pivot word with what comes before and after it each rendered as the longest
/// frequent n-gram next to the pivot (sizes `max_ngram_size` down to
/// `min_ngram_size`, with `[PREFIX]`/`[SUFFIX]` for the words beyond it), or
/// as the words themselves when there are at most `short_prefix_threshold` of
/// them, or as `[PREFIX]`/`[SUFFIX]`.
pub fn build_enriched_structural_pattern(
    tokens: &[&str],
    pivot_patterns: &Vec<(String, usize)>,
    frequent_ngrams: &[(String, usize)],
    threshold: usize,
    min_ngram_size: usize,
    max_ngram_size: usize,
    short_prefix_threshold: usize,
) -> (r: Option<String>)
    ensures
        opt_text(r) == spec_structural_pattern(
            line_texts(tokens@),
            entries_view(pivot_patterns@),
            frequent_ngrams@,
            threshold,
            min_ngram_size as int,
            max_ngram_size as int,
            short_prefix_threshold as int,
        ),
{
    let ghost ts = line_texts(tokens@);
    let ghost pv = entries_view(pivot_patterns@);
    if tokens.len() == 0 {
        return None;
    }
    let mut best_pos: usize = 0;
    let mut best_score: usize = 0;
    let mut found = false;
    let mut pos: usize = 0;
    while pos < tokens.len()
        invariant
            pos <= tokens.len(),
            ts == line_texts(tokens@),
            pv == entries_view(pivot_patterns@),
            best_pivot(ts, pv, pos as int) == (if found {
                (best_pos as int, best_score)
            } else {
                (-1int, 0usize)
            }),
            found ==> best_pos < pos,
            !found ==> best_score == 0,
        decreases tokens.len() - pos,
    {
        let word = string_of(chars_of(tokens[pos]).as_slice());
        let key = pivot_key_text(pos, &word);
        let j = find_entry(pivot_patterns, &key);
        proof {
            assert(ts[pos as int] == word@);
            assert(key@ == pivot_key(pos as int, ts[pos as int]));
            if j < pivot_patterns.len() {
                assert(pv[j as int].1 == pivot_patterns@[j as int].1);
            }
        }
        proof {
            lemma_find_key_from(pv, key@, 0);
            assert(map_get(pv, key@) == (if j < pivot_patterns.len() {
                Some(pv[j as int].1)
            } else {
                None
            }));
            assert(best_pivot(ts, pv, pos + 1) == (match map_get(pv, key@) {
                Some(score) => if score > best_pivot(ts, pv, pos as int).1 {
                    (pos as int, score)
                } else {
                    best_pivot(ts, pv, pos as int)
                },
                None => best_pivot(ts, pv, pos as int),
            }));
        }
        if j < pivot_patterns.len() {
            let score = pivot_patterns[j].1;
            if score > best_score {
                best_score = score;
                best_pos = pos;
                found = true;
            }
        }
        pos = pos + 1;
    }
    proof {
        lemma_best_pivot_bounds(ts, pv, ts.len() as int);
    }
    if !found || best_score < threshold {
        return None;
    }
    let mut parts: Vec<Vec<char>> = Vec::new();
    if best_pos > 0 {
        prefix_parts(
            tokens,
            best_pos,
            frequent_ngrams,
            min_ngram_size,
            max_ngram_size,
            short_prefix_threshold,
            &mut parts,
        );
    }
    let ghost pre = char_vecs(parts@);
    push_part(&mut parts, chars_of(tokens[best_pos]));
    if best_pos + 1 < tokens.len() {
        suffix_parts(
            tokens,
            best_pos,
            frequent_ngrams,
            min_ngram_size,
            max_ngram_size,
            short_prefix_threshold,
            &mut parts,
        );
    }
    proof {
        let sp = structural_parts(
            ts,
            best_pos as int,
            frequent_ngrams@,
            min_ngram_size as int,
            max_ngram_size as int,
            short_prefix_threshold as int,
        );
        assert(char_vecs(parts@) =~= sp);
    }
    let out = join_spaced(&parts);
    Some(string_of(out.as_slice()))
}

// ---------------------------------------------------------------------------
// Grouping sentences by pattern
// ---------------------------------------------------------------------------

/// Models of groups: each pattern with its sentences.
pub open spec fn groups_view(g: Seq<(String, Vec<String>)>) -> Seq<(Seq<char>, Seq<Seq<char>>)> {
    g.map_values(|e: (String, Vec<String>)| (e.0@, strings_view(e.1@)))
}

/// `s` added to the group of pattern `k`: at the end of its sentences, or as a
/// new last group (groups stay in order of first occurrence).
pub open spec fn add_to_group(g: Seq<(Seq<char>, Seq<Seq<char>>)>, k: Seq<char>, s: Seq<char>) -> Seq<(Seq<char>, Seq<Seq<char>>)> {
    let j = find_key(g, k);
    if j < g.len() {
        g.update(j, (k, g[j].1.push(s)))
    } else {
        g.push((k, seq![s]))
    }
}

/// The n-gram pattern of a sentence's words.
pub open spec fn text_pattern(
    ts: Seq<Seq<char>>,
    ngrams: Seq<(String, usize)>,
    phrases: Seq<(String, usize)>,
    lo: int,
    hi: int,
    plen: int,
) -> Seq<char> {
    space_joined(pattern_parts(ts, 0, ngrams, phrases, lo, hi, plen))
}

/// The first `k` sentences grouped by the n-gram patterns of their words.
pub open spec fn text_groups(
    ss: Seq<Seq<char>>,
    toks: Seq<Seq<Seq<char>>>,
    ngrams: Seq<(String, usize)>,
    phrases: Seq<(String, usize)>,
    lo: int,
    hi: int,
    plen: int,
    k: int,
) -> Seq<(Seq<char>, Seq<Seq<char>>)>
    decreases k,
{
    if k <= 0 {
        Seq::empty()
    } else {
        add_to_group(
            text_groups(ss, toks, ngrams, phrases, lo, hi, plen, k - 1),
            text_pattern(toks[k - 1], ngrams, phrases, lo, hi, plen),
            ss[k - 1],
        )
    }
}

/// Adds a sentence to the group of its pattern.
fn add_sentence(m: &mut StringHashMap<usize>, groups: &mut Vec<(String, Vec<String>)>, k: String, sentence: String)
    requires
        indexes(old(m)@, groups_view(old(groups)@)),
    ensures
        indexes(final(m)@, groups_view(final(groups)@)),
        groups_view(final(groups)@) == add_to_group(groups_view(old(groups)@), k@, sentence@),
{
    let ghost g = groups_view(groups@);
    proof {
        lemma_indexed_find(m@, g, k@);
    }
    match m.get(k.as_str()) {
        Some(jr) => {
            let j = *jr;
            groups[j].1.push(sentence);
            assert(strings_view(groups@[j as int].1@) =~= g[j as int].1.push(sentence@));
            assert(groups_view(groups@) =~= g.update(j as int, (k@, g[j as int].1.push(sentence@))));
        },
        None => {
            let len = groups.len();
            let ghost sv = sentence@;
            let mut one: Vec<String> = Vec::new();
            one.push(sentence);
            assert(strings_view(one@) =~= seq![sv]);
            groups.push((k.clone(), one));
            m.insert(k, len);
            assert(groups_view(groups@) =~= g.push((k@, seq![sv])));
            assert forall|i: int| 0 <= i < groups_view(groups@).len() implies #[trigger] m@.contains_key(
                groups_view(groups@)[i].0,
            ) && m@[groups_view(groups@)[i].0] == i by {
                if i < g.len() {
                    assert(old(m)@.contains_key(g[i].0));
                }
            }
        },
    }
}

/// Borrowed views of a sentence's words.
fn token_refs(tokens: &Vec<String>) -> (r: Vec<&str>)
    ensures
        line_texts(r@) == strings_view(tokens@),
{
    let mut r: Vec<&str> = Vec::new();
    let mut i: usize = 0;
    while i < tokens.len()
        invariant
            i <= tokens.len(),
            line_texts(r@) == strings_view(tokens@).take(i as int),
        decreases tokens.len() - i,
    {
        let ghost prev = r@;
        r.push(tokens[i].as_str());
        assert(line_texts(r@) =~= line_texts(prev).push(tokens@[i as int]@));
        assert(strings_view(tokens@).take(i + 1) =~= strings_view(tokens@).take(i as int).push(
            tokens@[i as int]@,
        ));
        i = i + 1;
    }
    assert(strings_view(tokens@).take(i as int) =~= strings_view(tokens@));
    r
}

/// The models of each sentence's words.
pub open spec fn token_lists(toks: Seq<Vec<String>>) -> Seq<Seq<Seq<char>>> {
    toks.map_values(|t: Vec<String>| strings_view(t@))
}

/// Groups sentences (paired with their words) by the n-gram patterns of their
/// words: each pattern with its sentences in order, patterns in order of first
/// occurrence.
pub fn group_sentences_by_pattern(
    sentences: &[String],
    sentence_tokens: &[Vec<String>],
    frequent_ngrams: &[(String, usize)],
    frequent_phrases: &[(String, usize)],
    min_ngram_size: usize,
    max_ngram_size: usize,
    min_phrase_length: usize,
) -> (r: Vec<(String, Vec<String>)>)
    requires
        min_ngram_size >= 1,
        min_phrase_length >= 1,
    ensures
        groups_view(r@) == text_groups(
            strings_view(sentences@),
            token_lists(sentence_tokens@),
            frequent_ngrams@,
            frequent_phrases@,
            min_ngram_size as int,
            max_ngram_size as int,
            min_phrase_length as int,
            if sentences.len() < sentence_tokens.len() {
                sentences.len() as int
            } else {
                sentence_tokens.len() as int
            },
        ),
{
    let ghost ss = strings_view(sentences@);
    let ghost toks = token_lists(sentence_tokens@);
    let n = if sentences.len() < sentence_tokens.len() {
        sentences.len()
    } else {
        sentence_tokens.len()
    };
    let mut m: StringHashMap<usize> = StringHashMap::new();
    let mut groups: Vec<(String, Vec<String>)> = Vec::new();
    let mut i: usize = 0;
    while i < n
        invariant
            i <= n <= sentences.len(),
            n <= sentence_tokens.len(),
            min_ngram_size >= 1,
            min_phrase_length >= 1,
            ss == strings_view(sentences@),
            toks == token_lists(sentence_tokens@),
            indexes(m@, groups_view(groups@)),
            groups_view(groups@) == text_groups(
                ss,
                toks,
                frequent_ngrams@,
                frequent_phrases@,
                min_ngram_size as int,
                max_ngram_size as int,
                min_phrase_length as int,
                i as int,
            ),
        decreases n - i,
    {
        let refs = token_refs(&sentence_tokens[i]);
        let pattern = build_text_pattern(
            refs.as_slice(),
            frequent_ngrams,
            frequent_phrases,
            min_ngram_size,
            max_ngram_size,
            min_phrase_length,
        );
        add_sentence(&mut m, &mut groups, pattern, sentences[i].clone());
        i = i + 1;
    }
    groups
}

/// A sentence's pattern: pivot-structured where its strongest pivot scores at
/// least `threshold`, else its n-gram pattern.
pub open spec fn sentence_pattern(
    ts: Seq<Seq<char>>,
    pv: Seq<(Seq<char>, usize)>,
    ngrams: Seq<(String, usize)>,
    phrases: Seq<(String, usize)>,
    threshold: usize,
    lo: int,
    hi: int,
    plen: int,
    short: int,
) -> Seq<char> {
    match spec_structural_pattern(ts, pv, ngrams, threshold, lo, hi, short) {
        Some(p) => p,
        None => text_pattern(ts, ngrams, phrases, lo, hi, plen),
    }
}

/// The first `k` sentences grouped by their patterns, a sentence of `n` words
/// needing a pivot score of `thresholds[n]`.
pub open spec fn structure_groups(
    ss: Seq<Seq<char>>,
    pv: Seq<(Seq<char>, usize)>,
    ngrams: Seq<(String, usize)>,
    phrases: Seq<(String, usize)>,
    thresholds: Seq<usize>,
    lo: int,
    hi: int,
    plen: int,
    short: int,
    k: int,
) -> Seq<(Seq<char>, Seq<Seq<char>>)>
    decreases k,
{
    if k <= 0 {
        Seq::empty()
    } else {
        let ts = words(ss[k - 1]);
        add_to_group(
            structure_groups(ss, pv, ngrams, phrases, thresholds, lo, hi, plen, short, k - 1),
            sentence_pattern(ts, pv, ngrams, phrases, thresholds[ts.len() as int], lo, hi, plen, short),
            ss[k - 1],
        )
    }
}

/// Groups sentences by pattern: each sentence's words get a pivot-structured
/// pattern where their strongest pivot scores at least
/// `structure_thresholds[<number of words>]`, else their n-gram pattern; each
/// pattern comes with its sentences in order, patterns in order of first
/// occurrence.
pub fn group_sentences_by_structure(
    sentences: &[String],
    pivot_patterns: &Vec<(String, usize)>,
    frequent_ngrams: &[(String, usize)],
    frequent_phrases: &[(String, usize)],
    structure_thresholds: &[usize],
    min_ngram_size: usize,
    max_ngram_size: usize,
    min_phrase_length: usize,
    short_prefix_threshold: usize,
) -> (r: Vec<(String, Vec<String>)>)
    requires
        min_ngram_size >= 1,
        min_phrase_length >= 1,
        forall|i: int| 0 <= i < sentences.len() ==> words(#[trigger] sentences@[i]@).len() < structure_thresholds.len(),
    ensures
        groups_view(r@) == structure_groups(
            strings_view(sentences@),
            entries_view(pivot_patterns@),
            frequent_ngrams@,
            frequent_phrases@,
            structure_thresholds@,
            min_ngram_size as int,
            max_ngram_size as int,
            min_phrase_length as int,
            short_prefix_threshold as int,
            sentences.len() as int,
        ),
{
    let ghost ss = strings_view(sentences@);
    let mut m: StringHashMap<usize> = StringHashMap::new();
    let mut groups: Vec<(String, Vec<String>)> = Vec::new();
    let mut i: usize = 0;
    while i < sentences.len()
        invariant
            i <= sentences.len(),
            min_ngram_size >= 1,
            min_phrase_length >= 1,
            ss == strings_view(sentences@),
            forall|k: int| 0 <= k < sentences.len() ==> words(#[trigger] sentences@[k]@).len() < structure_thresholds.len(),
            indexes(m@, groups_view(groups@)),
            groups_view(groups@) == structure_groups(
                ss,
                entries_view(pivot_patterns@),
                frequent_ngrams@,
                frequent_phrases@,
                structure_thresholds@,
                min_ngram_size as int,
                max_ngram_size as int,
                min_phrase_length as int,
                short_prefix_threshold as int,
                i as int,
            ),
        decreases sentences.len() - i,
    {
        let ws = split_words(sentences[i].as_str());
        let mut toks: Vec<String> = Vec::new();
        let mut k: usize = 0;
        while k < ws.len()
            invariant
                k <= ws.len(),
                strings_view(toks@) == char_vecs(ws@).take(k as int),
            decreases ws.len() - k,
        {
            let ghost prev = toks@;
            toks.push(string_of(ws[k].as_slice()));
            assert(strings_view(toks@) =~= strings_view(prev).push(ws@[k as int]@));
            assert(char_vecs(ws@).take(k + 1) =~= char_vecs(ws@).take(k as int).push(ws@[k as int]@));
            k = k + 1;
        }
        assert(char_vecs(ws@).take(k as int) =~= char_vecs(ws@));
        let refs = token_refs(&toks);
        assert(ss[i as int] == sentences@[i as int]@);
        let threshold = structure_thresholds[toks.len()];
        let pattern = match build_enriched_structural_pattern(
            refs.as_slice(),
            pivot_patterns,
            frequent_ngrams,
            threshold,
            min_ngram_size,
            max_ngram_size,
            short_prefix_threshold,
        ) {
            Some(p) => p,
            None => build_text_pattern(
                refs.as_slice(),
                frequent_ngrams,
                frequent_phrases,
                min_ngram_size,
                max_ngram_size,
                min_phrase_length,
            ),
        };
        add_sentence(&mut m, &mut groups, pattern, sentences[i].clone());
        i = i + 1;
    }
    groups
}

// ---------------------------------------------------------------------------
// Templates from groups
// ---------------------------------------------------------------------------

/// Total number of words of the sentences.
pub open spec fn total_words(ss: Seq<Seq<char>>) -> nat
    decreases ss.len(),
{
    if ss.len() == 0 {
        0
    } else {
        total_words(ss.drop_last()) + words(ss.last()).len()
    }
}

/// Average number of words per sentence, rounded down (0 without sentences).
pub fn average_sentence_length(sentences: &[String]) -> (r: usize)
    ensures
        sentences.len() == 0 ==> r == 0,
        sentences.len() > 0 ==> r == total_words(strings_view(sentences@)) / (sentences.len() as nat),
{
    let ghost ss = strings_view(sentences@);
    if sentences.len() == 0 {
        return 0;
    }
    let mut total: u128 = 0;
    let mut i: usize = 0;
    while i < sentences.len()
        invariant
            i <= sentences.len(),
            ss == strings_view(sentences@),
            total == total_words(ss.take(i as int)),
            total <= (i as int) * (usize::MAX as int),
        decreases sentences.len() - i,
    {
        assert(ss.take(i + 1).drop_last() =~= ss.take(i as int));
        let ws = split_words(sentences[i].as_str());
        let c = ws.len();
        proof {
            assert(char_vecs(ws@).len() == ws@.len());
            assert(total + c <= (i + 1) * (usize::MAX as int)) by (nonlinear_arith)
                requires
                    total <= (i as int) * (usize::MAX as int),
                    c <= usize::MAX,
            ;
            assert((i + 1) * (usize::MAX as int) < 0x1_0000_0000_0000_0000_0000_0000_0000_0000) by (nonlinear_arith)
                requires
                    i < usize::MAX,
                    usize::MAX <= u64::MAX,
            ;
        }
        total = total + c as u128;
        i = i + 1;
    }
    assert(ss.take(i as int) =~= ss);
    let n = sentences.len() as u128;
    let avg = total / n;
    assert(avg <= usize::MAX) by (nonlinear_arith)
        requires
            total <= (n as int) * (usize::MAX as int),
            n > 0,
            avg == total / n,
    ;
    avg as usize
}

/// Model of a template: pattern, count and examples.
pub open spec fn template_model(t: Template) -> (Seq<char>, usize, Seq<(Seq<char>, Seq<Seq<char>>)>) {
    (t.pattern@, t.count, examples_view(t.examples@))
}

/// Models of templates.
pub open spec fn templates_model(v: Seq<Template>) -> Seq<(Seq<char>, usize, Seq<(Seq<char>, Seq<Seq<char>>)>)> {
    v.map_values(|t: Template| template_model(t))
}

/// The examples gathered from the words of the first `k` sentences.
pub open spec fn gathered_examples(
    ss: Seq<Seq<char>>,
    k: int,
    ngrams: Seq<(String, usize)>,
    phrases: Seq<(String, usize)>,
    lo: int,
    hi: int,
    plen: int,
    max_examples: nat,
) -> Seq<(Seq<char>, Seq<Seq<char>>)>
    decreases k,
{
    if k <= 0 {
        Seq::empty()
    } else {
        examples_scan(
            words(ss[k - 1]),
            0,
            0,
            gathered_examples(ss, k - 1, ngrams, phrases, lo, hi, plen, max_examples),
            ngrams,
            phrases,
            lo,
            hi,
            plen,
            max_examples,
        )
    }
}

/// Each example list cut to its first `limit` items.
pub open spec fn capped_examples(ex: Seq<(Seq<char>, Seq<Seq<char>>)>, limit: nat) -> Seq<(Seq<char>, Seq<Seq<char>>)> {
    ex.map_values(
        |e: (Seq<char>, Seq<Seq<char>>)|
            (e.0, if e.1.len() > limit {
                e.1.take(limit as int)
            } else {
                e.1
            }),
    )
}

/// How many examples a template keeps per placeholder: half the per-placeholder
/// maximum, but at least the minimum.
pub open spec fn example_limit(max_examples: usize, min_examples: usize) -> nat {
    let half = max_examples / 2;
    if half > min_examples {
        half as nat
    } else {
        min_examples as nat
    }
}

/// How many sentences of a group its examples come from.
pub open spec fn sample_size(limit: nat, max_for_entropy: usize) -> nat {
    if limit < max_for_entropy {
        limit
    } else {
        max_for_entropy as nat
    }
}

/// The templates of the groups with at least `min_count` sentences whose
/// pattern has at most twice `avg` words: pattern, number of sentences, and the
/// examples of the first `sample` sentences, each list cut to `limit`.
pub open spec fn selected_templates(
    gs: Seq<(Seq<char>, Seq<Seq<char>>)>,
    min_count: usize,
    avg: usize,
    ngrams: Seq<(String, usize)>,
    phrases: Seq<(String, usize)>,
    lo: int,
    hi: int,
    plen: int,
    max_examples: nat,
    limit: nat,
    sample: nat,
) -> Seq<(Seq<char>, usize, Seq<(Seq<char>, Seq<Seq<char>>)>)>
    decreases gs.len(),
{
    if gs.len() == 0 {
        Seq::empty()
    } else {
        let prev = selected_templates(gs.drop_last(), min_count, avg, ngrams, phrases, lo, hi, plen, max_examples, limit, sample);
        let g = gs.last();
        if g.1.len() >= min_count && words(g.0).len() <= 2 * avg {
            let k = if g.1.len() < sample {
                g.1.len() as int
            } else {
                sample as int
            };
            prev.push(
                (
                    g.0,
                    g.1.len() as usize,
                    capped_examples(gathered_examples(g.1, k, ngrams, phrases, lo, hi, plen, max_examples), limit),
                ),
            )
        } else {
            prev
        }
    }
}

/// Each example list cut to its first `limit` items.
fn cap_examples(ex: Vec<(String, Vec<String>)>, limit: usize) -> (r: Vec<(String, Vec<String>)>)
    ensures
        examples_view(r@) == capped_examples(examples_view(ex@), limit as nat),
{
    let ghost e0 = examples_view(ex@);
    let mut r: Vec<(String, Vec<String>)> = Vec::new();
    let mut j: usize = 0;
    while j < ex.len()
        invariant
            j <= ex.len(),
            e0 == examples_view(ex@),
            examples_view(r@) == capped_examples(e0, limit as nat).take(j as int),
        decreases ex.len() - j,
    {
        let list = &ex[j].1;
        let ghost lv = strings_view(list@);
        let mut kept: Vec<String> = Vec::new();
        let mut q: usize = 0;
        while q < list.len() && q < limit
            invariant
                q <= list.len(),
                q <= limit,
                lv == strings_view(list@),
                strings_view(kept@) == lv.take(q as int),
            decreases list.len() - q,
        {
            let ghost prev = kept@;
            kept.push(list[q].clone());
            assert(strings_view(kept@) =~= strings_view(prev).push(lv[q as int]));
            assert(lv.take(q + 1) =~= lv.take(q as int).push(lv[q as int]));
            q = q + 1;
        }
        proof {
            if lv.len() <= limit {
                assert(lv.take(q as int) =~= lv);
            }
            assert(e0[j as int] == (ex@[j as int].0@, lv));
        }
        let ghost prev = examples_view(r@);
        r.push((ex[j].0.clone(), kept));
        assert(examples_view(r@) =~= prev.push(capped_examples(e0, limit as nat)[j as int]));
        assert(capped_examples(e0, limit as nat).take(j + 1) =~= capped_examples(e0, limit as nat).take(
            j as int,
        ).push(capped_examples(e0, limit as nat)[j as int]));
        j = j + 1;
    }
    assert(capped_examples(e0, limit as nat).take(j as int) =~= capped_examples(e0, limit as nat));
    r
}

/// Turns groups into templates (the pattern-grouping step of prose mining):
/// keeps the groups with at least `min_template_count` sentences whose pattern
/// has at most twice `avg_sentence_length` words, and gives each its pattern,
/// its number of sentences, and the examples of its first sentences (as many
/// as the example limit and `max_examples_for_entropy` allow), each example
/// list cut to the example limit.
pub fn build_templates_from_groups(
    groups: &Vec<(String, Vec<String>)>,
    min_template_count: usize,
    avg_sentence_length: usize,
    frequent_ngrams: &[(String, usize)],
    frequent_phrases: &[(String, usize)],
    min_ngram_size: usize,
    max_ngram_size: usize,
    min_phrase_length: usize,
    max_examples_per_placeholder: usize,
    min_examples_per_placeholder: usize,
    max_examples_for_entropy: usize,
) -> (r: Vec<Template>)
    requires
        min_ngram_size >= 1,
        min_phrase_length >= 1,
    ensures
        templates_model(r@) == selected_templates(
            groups_view(groups@),
            min_template_count,
            avg_sentence_length,
            frequent_ngrams@,
            frequent_phrases@,
            min_ngram_size as int,
            max_ngram_size as int,
            min_phrase_length as int,
            max_examples_per_placeholder as nat,
            example_limit(max_examples_per_placeholder, min_examples_per_placeholder),
            sample_size(
                example_limit(max_examples_per_placeholder, min_examples_per_placeholder),
                max_examples_for_entropy,
            ),
        ),
{
    let ghost gv = groups_view(groups@);
    let half = max_examples_per_placeholder / 2;
    let limit = if half > min_examples_per_placeholder {
        half
    } else {
        min_examples_per_placeholder
    };
    let sample = if limit < max_examples_for_entropy {
        limit
    } else {
        max_examples_for_entropy
    };
    let mut out: Vec<Template> = Vec::new();
    let mut g: usize = 0;
    while g < groups.len()
        invariant
            g <= groups.len(),
            gv == groups_view(groups@),
            min_ngram_size >= 1,
            min_phrase_length >= 1,
            limit as nat == example_limit(max_examples_per_placeholder, min_examples_per_placeholder),
            sample as nat == sample_size(limit as nat, max_examples_for_entropy),
            templates_model(out@) == selected_templates(
                gv.take(g as int),
                min_template_count,
                avg_sentence_length,
                frequent_ngrams@,
                frequent_phrases@,
                min_ngram_size as int,
                max_ngram_size as int,
                min_phrase_length as int,
                max_examples_per_placeholder as nat,
                limit as nat,
                sample as nat,
            ),
        decreases groups.len() - g,
    {
        assert(gv.take(g + 1).drop_last() =~= gv.take(g as int));
        let members = &groups[g].1;
        let ghost ss = strings_view(members@);
        let pw = split_words(groups[g].0.as_str());
        let wide = avg_sentence_length > usize::MAX / 2 || pw.len() <= avg_sentence_length * 2;
        proof {
            assert(char_vecs(pw@).len() == pw@.len());
            assert(gv[g as int] == (groups@[g as int].0@, ss));
            assert(gv.take(g + 1).last() == gv[g as int]);
            assert(ss.len() == members.len());
            assert(words(gv[g as int].0).len() == pw.len());
            assert(wide == (words(gv[g as int].0).len() <= 2 * avg_sentence_length));
        }
        if members.len() >= min_template_count && wide {
            let take = if members.len() < sample {
                members.len()
            } else {
                sample
            };
            let mut examples: Vec<(String, Vec<String>)> = Vec::new();
            let mut k: usize = 0;
            while k < take
                invariant
                    k <= take <= members.len(),
                    ss == strings_view(members@),
                    min_ngram_size >= 1,
                    min_phrase_length >= 1,
                    examples_view(examples@) == gathered_examples(
                        ss,
                        k as int,
                        frequent_ngrams@,
                        frequent_phrases@,
                        min_ngram_size as int,
                        max_ngram_size as int,
                        min_phrase_length as int,
                        max_examples_per_placeholder as nat,
                    ),
                decreases take - k,
            {
                let ws = split_words(members[k].as_str());
                let mut toks: Vec<String> = Vec::new();
                let mut q: usize = 0;
                while q < ws.len()
                    invariant
                        q <= ws.len(),
                        strings_view(toks@) == char_vecs(ws@).take(q as int),
                    decreases ws.len() - q,
                {
                    let ghost prev = toks@;
                    toks.push(string_of(ws[q].as_slice()));
                    assert(strings_view(toks@) =~= strings_view(prev).push(ws@[q as int]@));
                    assert(char_vecs(ws@).take(q + 1) =~= char_vecs(ws@).take(q as int).push(ws@[q as int]@));
                    q = q + 1;
                }
                assert(char_vecs(ws@).take(q as int) =~= char_vecs(ws@));
                let refs = token_refs(&toks);
                extract_text_examples(
                    refs.as_slice(),
                    frequent_ngrams,
                    frequent_phrases,
                    &mut examples,
                    min_ngram_size,
                    max_ngram_size,
                    min_phrase_length,
                    max_examples_per_placeholder,
                );
                k = k + 1;
            }
            let capped = cap_examples(examples, limit);
            let ghost prev = templates_model(out@);
            let t = Template { pattern: groups[g].0.clone(), count: members.len(), examples: capped };
            assert(template_model(t) == (
                gv[g as int].0,
                gv[g as int].1.len() as usize,
                capped_examples(
                    gathered_examples(
                        ss,
                        take as int,
                        frequent_ngrams@,
                        frequent_phrases@,
                        min_ngram_size as int,
                        max_ngram_size as int,
                        min_phrase_length as int,
                        max_examples_per_placeholder as nat,
                    ),
                    limit as nat,
                ),
            ));
            out.push(t);
            assert(templates_model(out@) =~= prev.push(template_model(t)));
        }
        g = g + 1;
    }
    assert(gv.take(g as int) =~= gv);
    out
}

// ---------------------------------------------------------------------------
// Laws
// ---------------------------------------------------------------------------

/// Number of sentences over all groups.
pub open spec fn group_total(g: Seq<(Seq<char>, Seq<Seq<char>>)>) -> nat
    decreases g.len(),
{
    if g.len() == 0 {
        0
    } else {
        group_total(g.drop_last()) + g.last().1.len()
    }
}

proof fn lemma_group_total_add(g: Seq<(Seq<char>, Seq<Seq<char>>)>, k: Seq<char>, s: Seq<char>)
    ensures
        group_total(add_to_group(g, k, s)) == group_total(g) + 1,
    decreases g.len(),
{
    lemma_find_key_from(g, k, 0);
    let j = find_key(g, k);
    if j < g.len() {
        lemma_group_total_update(g, j, (k, g[j].1.push(s)));
    } else {
        assert(g.push((k, seq![s])).drop_last() =~= g);
    }
}

proof fn lemma_group_total_update(g: Seq<(Seq<char>, Seq<Seq<char>>)>, j: int, x: (Seq<char>, Seq<Seq<char>>))
    requires
        0 <= j < g.len(),
    ensures
        group_total(g.update(j, x)) == group_total(g) - g[j].1.len() + x.1.len(),
    decreases g.len(),
{
    let u = g.update(j, x);
    if j == g.len() - 1 {
        assert(u.drop_last() =~= g.drop_last());
    } else {
        assert(u.drop_last() =~= g.drop_last().update(j, x));
        lemma_group_total_update(g.drop_last(), j, x);
    }
}

/// Grouping by n-gram pattern loses no sentence and adds none: the groups of
/// the first `k` sentences hold `k` sentences in all.
pub proof fn law_pattern_groups_hold_every_sentence(
    ss: Seq<Seq<char>>,
    toks: Seq<Seq<Seq<char>>>,
    ngrams: Seq<(String, usize)>,
    phrases: Seq<(String, usize)>,
    lo: int,
    hi: int,
    plen: int,
    k: nat,
)
    ensures
        group_total(text_groups(ss, toks, ngrams, phrases, lo, hi, plen, k as int)) == k,
    decreases k,
{
    if k > 0 {
        law_pattern_groups_hold_every_sentence(ss, toks, ngrams, phrases, lo, hi, plen, (k - 1) as nat);
        lemma_group_total_add(
            text_groups(ss, toks, ngrams, phrases, lo, hi, plen, k - 1),
            text_pattern(toks[k - 1], ngrams, phrases, lo, hi, plen),
            ss[k - 1],
        );
    }
}

/// Grouping by structure loses no sentence and adds none: the groups of the
/// first `k` sentences hold `k` sentences in all.
pub proof fn law_structure_groups_hold_every_sentence(
    ss: Seq<Seq<char>>,
    pv: Seq<(Seq<char>, usize)>,
    ngrams: Seq<(String, usize)>,
    phrases: Seq<(String, usize)>,
    thresholds: Seq<usize>,
    lo: int,
    hi: int,
    plen: int,
    short: int,
    k: nat,
)
    ensures
        group_total(structure_groups(ss, pv, ngrams, phrases, thresholds, lo, hi, plen, short, k as int)) == k,
    decreases k,
{
    if k > 0 {
        law_structure_groups_hold_every_sentence(ss, pv, ngrams, phrases, thresholds, lo, hi, plen, short, (k - 1) as nat);
        let ts = words(ss[k - 1]);
        lemma_group_total_add(
            structure_groups(ss, pv, ngrams, phrases, thresholds, lo, hi, plen, short, k - 1),
            sentence_pattern(ts, pv, ngrams, phrases, thresholds[ts.len() as int], lo, hi, plen, short),
            ss[k - 1],
        );
    }
}

/// Every template kept from the groups comes from a group of at least
/// `min_count` sentences, has a pattern of at most twice `avg` words, and keeps
/// at most `limit` examples per placeholder.
pub proof fn law_templates_frequent_short_and_capped(
    gs: Seq<(Seq<char>, Seq<Seq<char>>)>,
    min_count: usize,
    avg: usize,
    ngrams: Seq<(String, usize)>,
    phrases: Seq<(String, usize)>,
    lo: int,
    hi: int,
    plen: int,
    max_examples: nat,
    limit: nat,
    sample: nat,
)
    requires
        forall|i: int| 0 <= i < gs.len() ==> (#[trigger] gs[i]).1.len() <= usize::MAX,
    ensures
        forall|i: int|
            0 <= i < selected_templates(gs, min_count, avg, ngrams, phrases, lo, hi, plen, max_examples, limit, sample).len()
                ==> {
                let t = #[trigger] selected_templates(gs, min_count, avg, ngrams, phrases, lo, hi, plen, max_examples, limit, sample)[i];
                &&& t.1 >= min_count
                &&& words(t.0).len() <= 2 * avg
                &&& forall|e: int| 0 <= e < t.2.len() ==> (#[trigger] t.2[e]).1.len() <= limit
            },
    decreases gs.len(),
{
    if gs.len() > 0 {
        assert forall|i: int| 0 <= i < gs.drop_last().len() implies (#[trigger] gs.drop_last()[i]).1.len() <= usize::MAX by {
            assert(gs.drop_last()[i] == gs[i]);
        }
        law_templates_frequent_short_and_capped(gs.drop_last(), min_count, avg, ngrams, phrases, lo, hi, plen, max_examples, limit, sample);
        assert(gs.last().1.len() <= usize::MAX);
        let g = gs.last();
        let prev = selected_templates(gs.drop_last(), min_count, avg, ngrams, phrases, lo, hi, plen, max_examples, limit, sample);
        let sel = selected_templates(gs, min_count, avg, ngrams, phrases, lo, hi, plen, max_examples, limit, sample);
        if g.1.len() >= min_count && words(g.0).len() <= 2 * avg {
            let k = if g.1.len() < sample {
                g.1.len() as int
            } else {
                sample as int
            };
            let ex = capped_examples(gathered_examples(g.1, k, ngrams, phrases, lo, hi, plen, max_examples), limit);
            assert(sel == prev.push((g.0, g.1.len() as usize, ex)));
            assert forall|e: int| 0 <= e < ex.len() implies (#[trigger] ex[e]).1.len() <= limit by {}
            assert forall|i: int| 0 <= i < sel.len() implies {
                let t = #[trigger] sel[i];
                &&& t.1 >= min_count
                &&& words(t.0).len() <= 2 * avg
                &&& forall|e: int| 0 <= e < t.2.len() ==> (#[trigger] t.2[e]).1.len() <= limit
            } by {
                if i < prev.len() {
                    assert(sel[i] == prev[i]);
                }
            }
        }
    }
}

} // verus!
