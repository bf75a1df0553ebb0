//! Structural pivot points of sentences: cleaned words that occur often at one
//! position and are followed there by a moderate variety of words.

use vstd::prelude::*;

use crate::csv::{lowercase, to_lowercase};
use crate::logs::next_space;
use crate::pickle::strings_view;
use crate::text::{
    append_chars, chars_of, decimal, decimal_chars, first_non_space, skip_leading_space, string_of,
};

verus! {

/// Sentences looked at, at most.
pub const MAX_PIVOT_SENTENCES: usize = 50_000;

// ---------------------------------------------------------------------------
// Words
// ---------------------------------------------------------------------------

/// `next_space` never moves backwards and stays within the text.
pub proof fn lemma_next_space_bounds(s: Seq<char>, i: int)
    requires
        0 <= i <= s.len(),
    ensures
        i <= next_space(s, i) <= s.len(),
    decreases s.len() - i,
{
    if i < s.len() && !crate::text::is_space(s[i]) {
        lemma_next_space_bounds(s, i + 1);
    }
}

/// `first_non_space` never moves backwards and stays within the text.
pub proof fn lemma_first_non_space_bounds(s: Seq<char>, i: int)
    requires
        0 <= i <= s.len(),
    ensures
        i <= first_non_space(s, i) <= s.len(),
        first_non_space(s, i) < s.len() ==> !crate::text::is_space(s[first_non_space(s, i)]),
    decreases s.len() - i,
{
    if i < s.len() && crate::text::is_space(s[i]) {
        lemma_first_non_space_bounds(s, i + 1);
    }
}

/// The whitespace-separated words of `s` from index `i` on (`split_whitespace`).
pub open spec fn words_from(s: Seq<char>, i: int) -> Seq<Seq<char>>
    decreases s.len() - i,
{
    if i < 0 || i >= s.len() {
        Seq::empty()
    } else {
        let a = first_non_space(s, i);
        if a >= s.len() {
            Seq::empty()
        } else {
            let e = next_space(s, a);
            proof {
                lemma_first_non_space_bounds(s, i);
                lemma_next_space_bounds(s, a);
            }
            if e <= i {
                Seq::empty()
            } else {
                seq![s.subrange(a, e)] + words_from(s, e)
            }
        }
    }
}

/// The whitespace-separated words of `s`.
pub open spec fn words(s: Seq<char>) -> Seq<Seq<char>> {
    words_from(s, 0)
}

/// Index of the first whitespace character at or after `i`.
fn find_space(s: &[char], i: usize) -> (e: usize)
    requires
        i <= s.len(),
    ensures
        e as int == next_space(s@, i as int),
        i <= e <= s.len(),
    decreases s.len() - i,
{
    if i >= s.len() {
        i
    } else if crate::text::char_is_space(s[i]) {
        i
    } else {
        find_space(s, i + 1)
    }
}

/// The whitespace-separated words of a text.
pub fn split_words(text: &str) -> (r: Vec<Vec<char>>)
    ensures
        crate::text::char_vecs(r@) == words(text@),
{
    let s = chars_of(text);
    let mut r: Vec<Vec<char>> = Vec::new();
    let mut i: usize = 0;
    while i < s.len()
        invariant
            i <= s.len(),
            s@ == text@,
            crate::text::char_vecs(r@) + words_from(s@, i as int) == words(s@),
        decreases s.len() - i,
    {
        let a = skip_leading_space(s.as_slice(), i);
        proof {
            lemma_first_non_space_bounds(s@, i as int);
        }
        if a >= s.len() {
            assert(words_from(s@, i as int) =~= Seq::<Seq<char>>::empty());
            assert(crate::text::char_vecs(r@) + Seq::<Seq<char>>::empty() =~= crate::text::char_vecs(r@));
            i = s.len();
        } else {
            let e = find_space(s.as_slice(), a);
            assert(e > a) by {
                assert(!crate::text::is_space(s@[a as int]));
                assert(next_space(s@, a as int) == next_space(s@, a + 1));
                lemma_next_space_bounds(s@, a + 1);
            }
            let mut w: Vec<char> = Vec::new();
            let mut k: usize = a;
            while k < e
                invariant
                    a <= k <= e <= s.len(),
                    w@ == s@.subrange(a as int, k as int),
                decreases e - k,
            {
                w.push(s[k]);
                k = k + 1;
                assert(w@ =~= s@.subrange(a as int, k as int));
            }
            let ghost prev = crate::text::char_vecs(r@);
            r.push(w);
            proof {
                assert(crate::text::char_vecs(r@) =~= prev.push(w@));
                assert(words_from(s@, i as int) == seq![s@.subrange(a as int, e as int)] + words_from(s@, e as int));
                assert(prev.push(w@) + words_from(s@, e as int) =~= prev + (seq![w@] + words_from(s@, e as int)));
            }
            i = e;
        }
    }
    assert(words_from(s@, i as int) =~= Seq::<Seq<char>>::empty());
    assert(crate::text::char_vecs(r@) + Seq::<Seq<char>>::empty() =~= crate::text::char_vecs(r@));
    r
}

// ---------------------------------------------------------------------------
// Cleaned words
// ---------------------------------------------------------------------------

/// Whether `char::is_alphanumeric` holds of a character.
pub uninterp spec fn alphanumeric(c: char) -> bool;

/// `char::is_alphanumeric`; the contract names the result.
#[verifier::external_body]
pub(crate) fn char_is_alphanumeric(c: char) -> (r: bool)
    ensures
        r == alphanumeric(c),
{
    c.is_alphanumeric()
}

/// The alphanumeric characters of `s`, in order.
pub open spec fn alnum_only(s: Seq<char>) -> Seq<char>
    decreases s.len(),
{
    if s.len() == 0 {
        s
    } else if alphanumeric(s.last()) {
        alnum_only(s.drop_last()).push(s.last())
    } else {
        alnum_only(s.drop_last())
    }
}

/// A word cleaned for comparison: its alphanumeric characters, lower-cased.
pub open spec fn clean_word(w: Seq<char>) -> Seq<char> {
    lowercase(alnum_only(w))
}

/// The cleaned words of a sentence.
pub open spec fn cleaned(s: Seq<char>) -> Seq<Seq<char>> {
    words(s).map_values(|w: Seq<char>| clean_word(w))
}

/// Cleans a word.
fn clean_token(w: &[char]) -> (r: String)
    ensures
        r@ == clean_word(w@),
{
    let mut v: Vec<char> = Vec::new();
    let mut i: usize = 0;
    while i < w.len()
        invariant
            i <= w.len(),
            v@ == alnum_only(w@.take(i as int)),
        decreases w.len() - i,
    {
        assert(w@.take(i + 1).drop_last() =~= w@.take(i as int));
        if char_is_alphanumeric(w[i]) {
            v.push(w[i]);
        }
        i = i + 1;
    }
    assert(w@.take(i as int) =~= w@);
    let s = string_of(v.as_slice());
    to_lowercase(s.as_str())
}

/// The cleaned words of a sentence.
pub fn cleaned_words(sentence: &str) -> (r: Vec<String>)
    ensures
        strings_view(r@) == cleaned(sentence@),
{
    let ws = split_words(sentence);
    let ghost wv = crate::text::char_vecs(ws@);
    let mut r: Vec<String> = Vec::new();
    let mut i: usize = 0;
    while i < ws.len()
        invariant
            i <= ws.len(),
            wv == crate::text::char_vecs(ws@),
            wv == words(sentence@),
            strings_view(r@) == wv.take(i as int).map_values(|w: Seq<char>| clean_word(w)),
        decreases ws.len() - i,
    {
        let c = clean_token(ws[i].as_slice());
        let ghost prev = r@;
        r.push(c);
        proof {
            assert(strings_view(r@) =~= strings_view(prev).push(c@));
            assert(wv.take(i + 1) =~= wv.take(i as int).push(ws@[i as int]@));
        }
        i = i + 1;
    }
    assert(wv.take(i as int) =~= wv);
    r
}

// ---------------------------------------------------------------------------
// Counting
// ---------------------------------------------------------------------------

/// The cleaned word at position `p` of a sentence is `w`.
pub open spec fn at(toks: Seq<Seq<char>>, p: int, w: Seq<char>) -> bool {
    0 <= p < toks.len() && toks[p] == w
}

/// Number of sentences with `w` at position `p`.
pub open spec fn pos_count(ts: Seq<Seq<Seq<char>>>, p: int, w: Seq<char>) -> nat
    decreases ts.len(),
{
    if ts.len() == 0 {
        0
    } else {
        pos_count(ts.drop_last(), p, w) + if at(ts.last(), p, w) {
            1nat
        } else {
            0nat
        }
    }
}

/// The non-empty cleaned word after `w` at position `p` of a sentence, if any.
pub open spec fn follows(toks: Seq<Seq<char>>, p: int, w: Seq<char>) -> Set<Seq<char>> {
    if at(toks, p, w) && p + 1 < toks.len() && toks[p + 1].len() > 0 {
        set![toks[p + 1]]
    } else {
        Set::empty()
    }
}

/// The distinct non-empty cleaned words that follow `w` at position `p`.
pub open spec fn followers(ts: Seq<Seq<Seq<char>>>, p: int, w: Seq<char>) -> Set<Seq<char>>
    decreases ts.len(),
{
    if ts.len() == 0 {
        Set::empty()
    } else {
        followers(ts.drop_last(), p, w) + follows(ts.last(), p, w)
    }
}

/// `(p, w)` is among the pairs.
pub open spec fn has_pair(occ: Seq<(int, Seq<char>)>, p: int, w: Seq<char>) -> bool {
    exists|k: int| 0 <= k < occ.len() && occ[k] == (p, w)
}

/// The pairs `acc` followed by the new (position, non-empty word) pairs of the
/// first `q` positions of a sentence.
pub open spec fn occ_in(acc: Seq<(int, Seq<char>)>, toks: Seq<Seq<char>>, q: int) -> Seq<(int, Seq<char>)>
    decreases q,
{
    if q <= 0 {
        acc
    } else {
        let a = occ_in(acc, toks, q - 1);
        let w = toks[q - 1];
        if w.len() > 0 && !has_pair(a, q - 1, w) {
            a.push((q - 1, w))
        } else {
            a
        }
    }
}

/// The (position, non-empty word) pairs of the sentences in order of first
/// occurrence.
pub open spec fn occurrences(ts: Seq<Seq<Seq<char>>>) -> Seq<(int, Seq<char>)>
    decreases ts.len(),
{
    if ts.len() == 0 {
        Seq::empty()
    } else {
        occ_in(occurrences(ts.drop_last()), ts.last(), ts.last().len() as int)
    }
}

/// The key of a pivot: `P_<position>_<word>`.
pub open spec fn pivot_key(p: int, w: Seq<char>) -> Seq<char> {
    "P_"@ + decimal(p as nat) + "_"@ + w
}

/// The pivots among the pairs: those frequent enough with a variety of
/// followers within bounds, keyed, with their counts.
pub open spec fn pivot_entries(
    occ: Seq<(int, Seq<char>)>,
    ts: Seq<Seq<Seq<char>>>,
    min_frequency: nat,
    min_variation: nat,
    max_variation: nat,
) -> Seq<(Seq<char>, nat)>
    decreases occ.len(),
{
    if occ.len() == 0 {
        Seq::empty()
    } else {
        let r = pivot_entries(occ.drop_last(), ts, min_frequency, min_variation, max_variation);
        let (p, w) = occ.last();
        let c = pos_count(ts, p, w);
        let v = followers(ts, p, w).len();
        if c >= min_frequency && min_variation <= v <= max_variation {
            r.push((pivot_key(p, w), c))
        } else {
            r
        }
    }
}

/// The cleaned sentences looked at.
pub open spec fn sampled(sentences: Seq<Seq<char>>) -> Seq<Seq<Seq<char>>> {
    let s = if sentences.len() <= MAX_PIVOT_SENTENCES {
        sentences
    } else {
        sentences.take(MAX_PIVOT_SENTENCES as int)
    };
    s.map_values(|x: Seq<char>| cleaned(x))
}

/// The pivot points of the sentences, in order of first occurrence; none when
/// there are more than `MAX_PIVOT_SENTENCES` sentences.
pub open spec fn spec_pivots(sentences: Seq<Seq<char>>, min_frequency: nat, min_variation: nat, max_variation: nat) -> Seq<(Seq<char>, nat)> {
    if sentences.len() > MAX_PIVOT_SENTENCES {
        Seq::empty()
    } else {
        let ts = sampled(sentences);
        pivot_entries(occurrences(ts), ts, min_frequency, min_variation, max_variation)
    }
}

// ---------------------------------------------------------------------------
// Lemmas
// ---------------------------------------------------------------------------

proof fn lemma_occ_in_keeps(acc: Seq<(int, Seq<char>)>, toks: Seq<Seq<char>>, q: int, p: int, w: Seq<char>)
    requires
        0 <= q <= toks.len(),
    ensures
        has_pair(acc, p, w) ==> has_pair(occ_in(acc, toks, q), p, w),
        0 <= p < q && toks[p] == w && w.len() > 0 ==> has_pair(occ_in(acc, toks, q), p, w),
    decreases q,
{
    if q > 0 {
        lemma_occ_in_keeps(acc, toks, q - 1, p, w);
        let a = occ_in(acc, toks, q - 1);
        let t = toks[q - 1];
        if t.len() > 0 && !has_pair(a, q - 1, t) {
            if has_pair(a, p, w) {
                let k = choose|k: int| 0 <= k < a.len() && a[k] == (p, w);
                assert(a.push((q - 1, t))[k] == (p, w));
            }
            if p == q - 1 && toks[p] == w && w.len() > 0 {
                assert(a.push((q - 1, t))[a.len() as int] == (p, w));
            }
        }
    }
}

proof fn lemma_occurrences_cover(ts: Seq<Seq<Seq<char>>>, p: int, w: Seq<char>)
    requires
        w.len() > 0,
    ensures
        pos_count(ts, p, w) > 0 ==> has_pair(occurrences(ts), p, w),
        pos_count(ts, p, w) == 0 ==> followers(ts, p, w) == Set::<Seq<char>>::empty(),
        pos_count(ts, p, w) <= ts.len(),
    decreases ts.len(),
{
    if ts.len() > 0 {
        let d = ts.drop_last();
        lemma_occurrences_cover(d, p, w);
        let l = ts.last();
        lemma_occ_in_keeps(occurrences(d), l, l.len() as int, p, w);
        if pos_count(ts, p, w) == 0 {
            assert(followers(ts, p, w) =~= Set::<Seq<char>>::empty());
        }
    }
}

// ---------------------------------------------------------------------------
// The scan
// ---------------------------------------------------------------------------

/// A pivot candidate: position, word, count, distinct following words.
pub type PivotEntry = (usize, String, usize, Vec<String>);

/// The (position, word) pair of an entry.
pub open spec fn entry_key(e: PivotEntry) -> (int, Seq<char>) {
    (e.0 as int, e.1@)
}

/// The pairs of the entries.
pub open spec fn entry_keys(es: Seq<PivotEntry>) -> Seq<(int, Seq<char>)> {
    es.map_values(|e: PivotEntry| entry_key(e))
}

/// What the entries hold after the sentences `ts` and the first `q` positions
/// of the sentence `toks`.
pub open spec fn scan_state(es: Seq<PivotEntry>, ts: Seq<Seq<Seq<char>>>, toks: Seq<Seq<char>>, q: int) -> bool {
    &&& entry_keys(es) == occ_in(occurrences(ts), toks, q)
    &&& forall|j: int| 0 <= j < es.len() ==> (#[trigger] es[j]).1@.len() > 0
    &&& forall|j: int|
        0 <= j < es.len() ==> (#[trigger] es[j]).2 == pos_count(ts, es[j].0 as int, es[j].1@) + if (es[j].0 as int)
            < q && at(toks, es[j].0 as int, es[j].1@) {
            1nat
        } else {
            0nat
        }
    &&& forall|j: int| 0 <= j < es.len() ==> strings_view((#[trigger] es[j]).3@).no_duplicates()
    &&& forall|j: int|
        0 <= j < es.len() ==> strings_view((#[trigger] es[j]).3@).to_set() == followers(ts, es[j].0 as int, es[j].1@) + if (
        es[j].0 as int) < q {
            follows(toks, es[j].0 as int, es[j].1@)
        } else {
            Set::empty()
        }
}

/// Index of the entry for `(q, w)` (`es.len()` when there is none).
fn find_pair(es: &Vec<PivotEntry>, q: usize, w: &String) -> (j: usize)
    ensures
        j <= es.len(),
        j < es.len() ==> es@[j as int].0 == q && es@[j as int].1@ == w@,
        j == es.len() ==> !has_pair(entry_keys(es@), q as int, w@),
{
    let mut j: usize = 0;
    while j < es.len()
        invariant
            j <= es.len(),
            forall|k: int| 0 <= k < j ==> entry_key(#[trigger] es@[k]) != (q as int, w@),
        decreases es.len() - j,
    {
        if es[j].0 == q && es[j].1 == *w {
            return j;
        }
        j = j + 1;
    }
    proof {
        if has_pair(entry_keys(es@), q as int, w@) {
            let k = choose|k: int| 0 <= k < entry_keys(es@).len() && entry_keys(es@)[k] == (q as int, w@);
            assert(entry_key(es@[k]) == (q as int, w@));
        }
    }
    j
}

/// Whether `x` is one of the texts.
fn has_text(v: &Vec<String>, x: &String) -> (r: bool)
    ensures
        r == strings_view(v@).contains(x@),
{
    let mut k: usize = 0;
    while k < v.len()
        invariant
            k <= v.len(),
            forall|m: int| 0 <= m < k ==> (#[trigger] v@[m])@ != x@,
        decreases v.len() - k,
    {
        if v[k] == *x {
            assert(strings_view(v@)[k as int] == x@);
            return true;
        }
        k = k + 1;
    }
    proof {
        if strings_view(v@).contains(x@) {
            let m = choose|m: int| 0 <= m < strings_view(v@).len() && strings_view(v@)[m] == x@;
            assert(v@[m]@ == x@);
        }
    }
    false
}

proof fn lemma_occ_in_nodup(acc: Seq<(int, Seq<char>)>, toks: Seq<Seq<char>>, q: int)
    requires
        acc.no_duplicates(),
    ensures
        occ_in(acc, toks, q).no_duplicates(),
    decreases q,
{
    if q > 0 {
        lemma_occ_in_nodup(acc, toks, q - 1);
        let a = occ_in(acc, toks, q - 1);
        let t = toks[q - 1];
        if t.len() > 0 && !has_pair(a, q - 1, t) {
            let r = a.push((q - 1, t));
            assert forall|i: int, j: int| 0 <= i < r.len() && 0 <= j < r.len() && i != j implies r[i] != r[j] by {
                if i < a.len() && j < a.len() {
                    assert(r[i] == a[i] && r[j] == a[j]);
                } else if i < a.len() {
                    assert(r[i] == a[i]);
                } else {
                    assert(r[j] == a[j]);
                }
            }
        }
    }
}

proof fn lemma_occurrences_nodup(ts: Seq<Seq<Seq<char>>>)
    ensures
        occurrences(ts).no_duplicates(),
    decreases ts.len(),
{
    if ts.len() > 0 {
        lemma_occurrences_nodup(ts.drop_last());
        lemma_occ_in_nodup(occurrences(ts.drop_last()), ts.last(), ts.last().len() as int);
    }
}

/// Counts the cleaned word at position `q` of the sentence `toks`.
fn count_position(es: &mut Vec<PivotEntry>, toks: &Vec<String>, q: usize, Ghost(ts): Ghost<Seq<Seq<Seq<char>>>>)
    requires
        q < toks.len(),
        ts.len() < usize::MAX,
        scan_state(old(es)@, ts, strings_view(toks@), q as int),
    ensures
        scan_state(final(es)@, ts, strings_view(toks@), q + 1),
{
    let ghost tv = strings_view(toks@);
    let ghost e0 = es@;
    let ghost acc = occurrences(ts);
    proof {
        lemma_occurrences_nodup(ts);
        lemma_occ_in_nodup(acc, tv, q as int);
        assert(tv[q as int] == toks@[q as int]@);
    }
    let w = &toks[q];
    if chars_of(w.as_str()).len() == 0 {
        proof {
            assert(occ_in(acc, tv, q + 1) == occ_in(acc, tv, q as int));
            assert forall|j: int| 0 <= j < e0.len() implies (#[trigger] e0[j]).2 == pos_count(ts, e0[j].0 as int, e0[j].1@)
                + if (e0[j].0 as int) < q + 1 && at(tv, e0[j].0 as int, e0[j].1@) {
                1nat
            } else {
                0nat
            } by {
                if e0[j].0 == q {
                    assert(!at(tv, q as int, e0[j].1@));
                }
            }
            assert forall|j: int| 0 <= j < e0.len() implies strings_view((#[trigger] e0[j]).3@).to_set() == followers(ts, e0[j].0 as int, e0[j].1@)
                + if (e0[j].0 as int) < q + 1 {
                follows(tv, e0[j].0 as int, e0[j].1@)
            } else {
                Set::empty()
            } by {
                if e0[j].0 == q {
                    assert(!at(tv, q as int, e0[j].1@));
                    assert(follows(tv, q as int, e0[j].1@) =~= Set::<Seq<char>>::empty());
                }
            }
        }
        return;
    }
    let j = find_pair(es, q, w);
    let nxt: Option<String> = if q + 1 < toks.len() && chars_of(toks[q + 1].as_str()).len() > 0 {
        Some(toks[q + 1].clone())
    } else {
        None
    };
    proof {
        assert(q + 1 < toks.len() ==> tv[q + 1] == toks@[q + 1]@);
        assert(follows(tv, q as int, w@) == match nxt {
            Some(x) => set![x@],
            None => Set::<Seq<char>>::empty(),
        });
    }
    if j < es.len() {
        proof {
            lemma_occurrences_cover(ts, q as int, w@);
            assert(entry_keys(e0)[j as int] == (q as int, w@));
            assert(has_pair(occ_in(acc, tv, q as int), q as int, w@));
            assert(occ_in(acc, tv, q + 1) == occ_in(acc, tv, q as int));
        }
        let (p0, w0, c0, mut fl) = es.remove(j);
        let ghost fl0 = fl@;
        match nxt {
            Some(x) => {
                if !has_text(&fl, &x) {
                    let ghost before = strings_view(fl@);
                    fl.push(x);
                    proof {
                        assert(strings_view(fl@) =~= before.push(x@));
                        before.lemma_push_to_set_commute(x@);
                        assert forall|a: int, b: int| 0 <= a < strings_view(fl@).len() && 0 <= b < strings_view(fl@).len() && a != b
                            implies strings_view(fl@)[a] != strings_view(fl@)[b] by {
                            if a < before.len() && b < before.len() {
                            } else if a < before.len() {
                                assert(before.contains(before[a]));
                            } else {
                                assert(before.contains(before[b]));
                            }
                        }
                    }
                } else {
                    proof {
                        assert(strings_view(fl@).to_set() =~= strings_view(fl@).to_set().insert(x@));
                    }
                }
            },
            None => {},
        }
        let c1 = c0 + 1;
        let entry = (p0, w0, c1, fl);
        es.insert(j, entry);
        proof {
            assert(es@ == e0.update(j as int, entry));
            assert(entry_keys(es@) =~= entry_keys(e0));
            assert forall|k: int| 0 <= k < es@.len() && k != j implies (#[trigger] es@[k]).0 != q || es@[k].1@ != w@ by {
                assert(entry_keys(e0)[k] != entry_keys(e0)[j as int]);
            }
            assert forall|k: int| 0 <= k < es@.len() implies (#[trigger] es@[k]).2 == pos_count(ts, es@[k].0 as int, es@[k].1@)
                + if (es@[k].0 as int) < q + 1 && at(tv, es@[k].0 as int, es@[k].1@) {
                1nat
            } else {
                0nat
            } by {
                if k != j && es@[k].0 == q {
                    assert(!at(tv, q as int, es@[k].1@));
                }
            }
            assert forall|k: int| 0 <= k < es@.len() implies strings_view((#[trigger] es@[k]).3@).to_set() == followers(ts, es@[k].0 as int, es@[k].1@)
                + if (es@[k].0 as int) < q + 1 {
                follows(tv, es@[k].0 as int, es@[k].1@)
            } else {
                Set::empty()
            } by {
                if k != j && es@[k].0 == q {
                    assert(!at(tv, q as int, es@[k].1@));
                    assert(follows(tv, q as int, es@[k].1@) =~= Set::<Seq<char>>::empty());
                }
                if k == j {
                    assert(followers(ts, q as int, w@) + Set::<Seq<char>>::empty() =~= followers(ts, q as int, w@));
                }
            }
        }
    } else {
        proof {
            lemma_occ_in_keeps(acc, tv, q as int, q as int, w@);
            lemma_occurrences_cover(ts, q as int, w@);
            assert(pos_count(ts, q as int, w@) == 0);
        }
        let mut fl: Vec<String> = Vec::new();
        match nxt {
            Some(x) => {
                fl.push(x);
                proof {
                    assert(strings_view(fl@) =~= Seq::<Seq<char>>::empty().push(x@));
                    Seq::<Seq<char>>::empty().lemma_push_to_set_commute(x@);
                    assert(Seq::<Seq<char>>::empty().to_set() =~= Set::<Seq<char>>::empty());
                }
            },
            None => {
                proof {
                    assert(strings_view(fl@) =~= Seq::<Seq<char>>::empty());
                    assert(Seq::<Seq<char>>::empty().to_set() =~= Set::<Seq<char>>::empty());
                }
            },
        }
        let entry = (q, w.clone(), 1usize, fl);
        es.push(entry);
        proof {
            assert(es@ == e0.push(entry));
            assert(entry_keys(es@) =~= entry_keys(e0).push((q as int, w@)));
            assert forall|k: int| 0 <= k < e0.len() implies (#[trigger] e0[k]).0 != q || e0[k].1@ != w@ by {
                if e0[k].0 == q && e0[k].1@ == w@ {
                    assert(entry_keys(e0)[k] == (q as int, w@));
                }
            }
            assert forall|k: int| 0 <= k < es@.len() implies (#[trigger] es@[k]).2 == pos_count(ts, es@[k].0 as int, es@[k].1@)
                + if (es@[k].0 as int) < q + 1 && at(tv, es@[k].0 as int, es@[k].1@) {
                1nat
            } else {
                0nat
            } by {
                if k < e0.len() {
                    assert(es@[k] == e0[k]);
                    if e0[k].0 == q {
                        assert(!at(tv, q as int, e0[k].1@));
                    }
                }
            }
            assert forall|k: int| 0 <= k < es@.len() implies strings_view((#[trigger] es@[k]).3@).to_set() == followers(ts, es@[k].0 as int, es@[k].1@)
                + if (es@[k].0 as int) < q + 1 {
                follows(tv, es@[k].0 as int, es@[k].1@)
            } else {
                Set::empty()
            } by {
                if k < e0.len() {
                    assert(es@[k] == e0[k]);
                    if e0[k].0 == q {
                        assert(!at(tv, q as int, e0[k].1@));
                        assert(follows(tv, q as int, e0[k].1@) =~= Set::<Seq<char>>::empty());
                    }
                } else {
                    assert(Set::<Seq<char>>::empty() + follows(tv, q as int, w@) =~= follows(tv, q as int, w@));
                }
            }
            assert forall|k: int| 0 <= k < es@.len() implies strings_view((#[trigger] es@[k]).3@).no_duplicates() by {
                if k < e0.len() {
                    assert(es@[k] == e0[k]);
                }
            }
        }
    }
}

proof fn lemma_start_sentence(es: Seq<PivotEntry>, ts: Seq<Seq<Seq<char>>>, a: Seq<Seq<char>>, b: Seq<Seq<char>>)
    requires
        scan_state(es, ts, a, 0),
    ensures
        scan_state(es, ts, b, 0),
{
    assert forall|j: int| 0 <= j < es.len() implies strings_view((#[trigger] es[j]).3@).to_set() == followers(ts, es[j].0 as int, es[j].1@)
        + if (es[j].0 as int) < 0 {
        follows(b, es[j].0 as int, es[j].1@)
    } else {
        Set::empty()
    } by {
        assert(strings_view(es[j].3@).to_set() == followers(ts, es[j].0 as int, es[j].1@) + if (es[j].0 as int) < 0 {
            follows(a, es[j].0 as int, es[j].1@)
        } else {
            Set::empty()
        });
    }
}

proof fn lemma_finish_sentence(es: Seq<PivotEntry>, ts: Seq<Seq<Seq<char>>>, toks: Seq<Seq<char>>)
    requires
        scan_state(es, ts, toks, toks.len() as int),
    ensures
        scan_state(es, ts.push(toks), Seq::empty(), 0),
{
    let t2 = ts.push(toks);
    assert(t2.drop_last() =~= ts);
    assert(t2.last() == toks);
    assert forall|j: int| 0 <= j < es.len() implies (#[trigger] es[j]).2 == pos_count(t2, es[j].0 as int, es[j].1@)
        + if (es[j].0 as int) < 0 && at(Seq::<Seq<char>>::empty(), es[j].0 as int, es[j].1@) {
        1nat
    } else {
        0nat
    } by {
        assert(es[j].2 == pos_count(ts, es[j].0 as int, es[j].1@) + if (es[j].0 as int) < toks.len() && at(toks, es[j].0 as int, es[j].1@) {
            1nat
        } else {
            0nat
        });
    }
    assert forall|j: int| 0 <= j < es.len() implies strings_view((#[trigger] es[j]).3@).to_set() == followers(t2, es[j].0 as int, es[j].1@)
        + if (es[j].0 as int) < 0 {
        follows(Seq::<Seq<char>>::empty(), es[j].0 as int, es[j].1@)
    } else {
        Set::empty()
    } by {
        let p = es[j].0 as int;
        let w = es[j].1@;
        assert(strings_view(es[j].3@).to_set() == followers(ts, p, w) + if p < toks.len() {
            follows(toks, p, w)
        } else {
            Set::empty()
        });
        if p >= toks.len() {
            assert(follows(toks, p, w) =~= Set::<Seq<char>>::empty());
        }
        assert(followers(t2, p, w) + Set::<Seq<char>>::empty() =~= followers(t2, p, w));
    }
}

/// The key of a pivot: `P_<position>_<word>`.
pub(crate) fn pivot_key_text(p: usize, w: &String) -> (r: String)
    ensures
        r@ == pivot_key(p as int, w@),
{
    proof {
        reveal_strlit("P_");
        reveal_strlit("_");
    }
    let mut v = chars_of("P_");
    append_chars(&mut v, decimal_chars(p).as_slice());
    append_chars(&mut v, chars_of("_").as_slice());
    append_chars(&mut v, chars_of(w.as_str()).as_slice());
    string_of(v.as_slice())
}

/// Models of pivots.
pub open spec fn pivots_view(r: Seq<(String, usize)>) -> Seq<(Seq<char>, nat)> {
    r.map_values(|e: (String, usize)| (e.0@, e.1 as nat))
}

/// Finds the structural pivot points of the sentences (none when there are more
/// than `MAX_PIVOT_SENTENCES` of them, too many to look at): for each position and cleaned word (alphanumeric characters,
/// lower-cased) that occurs there in at least `min_frequency` sentences and is
/// followed there by between `min_pivot_variation` and `max_pivot_variation`
/// distinct cleaned words, the key `P_<position>_<word>` with its count, in
/// order of first occurrence.
pub fn extract_pivot_points(
    sentences: &[String],
    min_frequency: usize,
    min_pivot_variation: usize,
    max_pivot_variation: usize,
) -> (r: Vec<(String, usize)>)
    ensures
        pivots_view(r@) == spec_pivots(
            strings_view(sentences@),
            min_frequency as nat,
            min_pivot_variation as nat,
            max_pivot_variation as nat,
        ),
{
    if sentences.len() > MAX_PIVOT_SENTENCES {
        return Vec::new();
    }
    let n = sentences.len();
    let ghost sv = strings_view(sentences@);
    let ghost ts = sampled(sv);
    assert(ts.len() == n);
    let mut es: Vec<PivotEntry> = Vec::new();
    let mut i: usize = 0;
    proof {
        assert(ts.take(0) =~= Seq::<Seq<Seq<char>>>::empty());
        assert(entry_keys(es@) =~= Seq::<(int, Seq<char>)>::empty());
    }
    while i < n
        invariant
            i <= n,
            n == ts.len(),
            n <= sentences.len(),
            n <= MAX_PIVOT_SENTENCES,
            sv == strings_view(sentences@),
            ts == sampled(sv),
            scan_state(es@, ts.take(i as int), Seq::empty(), 0),
        decreases n - i,
    {
        let toks = cleaned_words(sentences[i].as_str());
        let ghost tv = strings_view(toks@);
        proof {
            assert(ts[i as int] == tv);
            lemma_start_sentence(es@, ts.take(i as int), Seq::empty(), tv);
        }
        let mut q: usize = 0;
        while q < toks.len()
            invariant
                q <= toks.len(),
                i < n,
                n <= MAX_PIVOT_SENTENCES,
                n == ts.len(),
                ts.take(i as int).len() == i,
                tv == strings_view(toks@),
                scan_state(es@, ts.take(i as int), tv, q as int),
            decreases toks.len() - q,
        {
            count_position(&mut es, &toks, q, Ghost(ts.take(i as int)));
            q = q + 1;
        }
        proof {
            lemma_finish_sentence(es@, ts.take(i as int), tv);
            assert(ts.take(i as int).push(tv) =~= ts.take(i + 1));
        }
        i = i + 1;
    }
    assert(ts.take(i as int) =~= ts);
    let ghost keys = entry_keys(es@);
    let mut r: Vec<(String, usize)> = Vec::new();
    let mut k: usize = 0;
    while k < es.len()
        invariant
            k <= es.len(),
            keys == entry_keys(es@),
            scan_state(es@, ts, Seq::empty(), 0),
            keys == occurrences(ts),
            pivots_view(r@) == pivot_entries(keys.take(k as int), ts, min_frequency as nat, min_pivot_variation as nat, max_pivot_variation as nat),
        decreases es.len() - k,
    {
        let e = &es[k];
        let v = e.3.len();
        proof {
            let p = e.0 as int;
            let w = e.1@;
            assert(keys[k as int] == (p, w));
            assert(keys.take(k + 1).drop_last() =~= keys.take(k as int));
            assert(keys.take(k + 1).last() == (p, w));
            assert(strings_view(es@[k as int].3@).to_set() == followers(ts, p, w) + Set::<Seq<char>>::empty());
            assert(followers(ts, p, w) + Set::<Seq<char>>::empty() =~= followers(ts, p, w));
            strings_view(e.3@).unique_seq_to_set();
            assert(e.2 == pos_count(ts, p, w));
        }
        if e.2 >= min_frequency && min_pivot_variation <= v && v <= max_pivot_variation {
            let key = pivot_key_text(e.0, &e.1);
            let ghost prev = r@;
            r.push((key, e.2));
            assert(pivots_view(r@) =~= pivots_view(prev).push((key@, e.2 as nat)));
        }
        k = k + 1;
    }
    assert(keys.take(k as int) =~= keys);
    r
}

proof fn lemma_pos_count_bound(ts: Seq<Seq<Seq<char>>>, p: int, w: Seq<char>)
    ensures
        pos_count(ts, p, w) <= ts.len(),
    decreases ts.len(),
{
    if ts.len() > 0 {
        lemma_pos_count_bound(ts.drop_last(), p, w);
    }
}

proof fn lemma_entries_bounds(occ: Seq<(int, Seq<char>)>, ts: Seq<Seq<Seq<char>>>, minf: nat, minv: nat, maxv: nat)
    ensures
        forall|k: int| 0 <= k < pivot_entries(occ, ts, minf, minv, maxv).len() ==> minf <= (
        #[trigger] pivot_entries(occ, ts, minf, minv, maxv)[k]).1 <= ts.len(),
    decreases occ.len(),
{
    if occ.len() > 0 {
        lemma_entries_bounds(occ.drop_last(), ts, minf, minv, maxv);
        let (p, w) = occ.last();
        lemma_pos_count_bound(ts, p, w);
        let r = pivot_entries(occ.drop_last(), ts, minf, minv, maxv);
        assert forall|k: int| 0 <= k < pivot_entries(occ, ts, minf, minv, maxv).len() implies minf <= (
        #[trigger] pivot_entries(occ, ts, minf, minv, maxv)[k]).1 <= ts.len() by {
            if k < r.len() {
                assert(pivot_entries(occ, ts, minf, minv, maxv)[k] == r[k]);
            }
        }
    }
}

/// Every pivot found occurs at least `min_frequency` times, and at most once
/// per sentence looked at.
pub proof fn law_pivot_counts_bounded(sentences: Seq<Seq<char>>, min_frequency: nat, min_variation: nat, max_variation: nat)
    ensures
        forall|k: int| 0 <= k < spec_pivots(sentences, min_frequency, min_variation, max_variation).len() ==> min_frequency
            <= (#[trigger] spec_pivots(sentences, min_frequency, min_variation, max_variation)[k]).1 <= MAX_PIVOT_SENTENCES,
        forall|k: int| 0 <= k < spec_pivots(sentences, min_frequency, min_variation, max_variation).len() ==> (
        #[trigger] spec_pivots(sentences, min_frequency, min_variation, max_variation)[k]).1 <= sentences.len(),
{
    if sentences.len() <= MAX_PIVOT_SENTENCES {
        let ts = sampled(sentences);
        lemma_entries_bounds(occurrences(ts), ts, min_frequency, min_variation, max_variation);
    }
}

// ---------------------------------------------------------------------------
// Subject / pivot / object structure
// ---------------------------------------------------------------------------

/// `k` is the key of one of the pivots.
pub open spec fn is_pivot_key(pivots: Seq<(String, usize)>, k: Seq<char>) -> bool {
    exists|j: int| 0 <= j < pivots.len() && (#[trigger] pivots[j]).0@ == k
}

/// The first position from `p` on whose cleaned word is a pivot there.
pub open spec fn pivot_from(toks: Seq<Seq<char>>, pivots: Seq<(String, usize)>, p: int) -> Option<(int, Seq<char>)>
    decreases toks.len() - p,
{
    if p < 0 || p >= toks.len() {
        None
    } else if toks[p].len() > 0 && is_pivot_key(pivots, pivot_key(p, toks[p])) {
        Some((p, toks[p]))
    } else {
        pivot_from(toks, pivots, p + 1)
    }
}

/// The first pivot of a sentence: its position and cleaned word.
pub open spec fn first_pivot(sentence: Seq<char>, pivots: Seq<(String, usize)>) -> Option<(int, Seq<char>)> {
    pivot_from(cleaned(sentence), pivots, 0)
}

/// Whether `k` is one of the pivot keys.
fn pivot_listed(pivots: &[(String, usize)], k: &String) -> (r: bool)
    ensures
        r == is_pivot_key(pivots@, k@),
{
    let mut j: usize = 0;
    while j < pivots.len()
        invariant
            j <= pivots.len(),
            forall|m: int| 0 <= m < j ==> (#[trigger] pivots@[m]).0@ != k@,
        decreases pivots.len() - j,
    {
        if pivots[j].0 == *k {
            return true;
        }
        j = j + 1;
    }
    false
}

/// The first position of a sentence whose cleaned word is a pivot there, with
/// that word.
pub fn find_pivot_position(sentence: &str, pivots: &[(String, usize)]) -> (r: Option<(usize, String)>)
    ensures
        match first_pivot(sentence@, pivots@) {
            Some((p, w)) => r matches Some((q, x)) && q == p && x@ == w,
            None => r is None,
        },
{
    let toks = cleaned_words(sentence);
    let ghost tv = strings_view(toks@);
    let mut p: usize = 0;
    while p < toks.len()
        invariant
            p <= toks.len(),
            tv == strings_view(toks@),
            tv == cleaned(sentence@),
            pivot_from(tv, pivots@, 0) == pivot_from(tv, pivots@, p as int),
        decreases toks.len() - p,
    {
        assert(tv[p as int] == toks@[p as int]@);
        if chars_of(toks[p].as_str()).len() > 0 {
            let key = pivot_key_text(p, &toks[p]);
            if pivot_listed(pivots, &key) {
                return Some((p, toks[p].clone()));
            }
        }
        p = p + 1;
    }
    None
}

/// Tallies of the subject-pivot-object structure of sentences.
pub struct SvoTallies {
    pub sentences_with_pivots: usize,
    pub total_subject_length: usize,
    pub subject_count: usize,
    pub total_object_length: usize,
    pub object_count: usize,
    pub pivot_words: Vec<(String, usize)>,
}

/// Model of the tallies (lengths summed as `usize` sums wrap).
pub struct SvoView {
    pub sentences_with_pivots: nat,
    pub total_subject_length: int,
    pub subject_count: nat,
    pub total_object_length: int,
    pub object_count: nat,
    pub pivot_words: Seq<(Seq<char>, nat)>,
}

/// `a + b` as `usize` addition that wraps around.
pub open spec fn wrap_add(a: int, b: int) -> int {
    if a + b > usize::MAX {
        a + b - (usize::MAX as int + 1)
    } else {
        a + b
    }
}

/// The pivot-word counts with one more occurrence of `w` (a new word goes last).
pub open spec fn count_word(ws: Seq<(Seq<char>, nat)>, w: Seq<char>) -> Seq<(Seq<char>, nat)> {
    if exists|j: int| 0 <= j < ws.len() && ws[j].0 == w {
        let j = choose|j: int| 0 <= j < ws.len() && ws[j].0 == w;
        ws.update(j, (w, ws[j].1 + 1))
    } else {
        ws.push((w, 1))
    }
}

/// The tallies over sentences: for each sentence with a pivot, its subject
/// length (words before the pivot) when non-zero, its object length (words
/// after it) when non-zero, and its pivot word.
pub open spec fn svo_fold(ss: Seq<Seq<char>>, pivots: Seq<(String, usize)>) -> SvoView
    decreases ss.len(),
{
    if ss.len() == 0 {
        SvoView {
            sentences_with_pivots: 0,
            total_subject_length: 0,
            subject_count: 0,
            total_object_length: 0,
            object_count: 0,
            pivot_words: Seq::empty(),
        }
    } else {
        let t = svo_fold(ss.drop_last(), pivots);
        match first_pivot(ss.last(), pivots) {
            None => t,
            Some((p, w)) => {
                let after = cleaned(ss.last()).len() - (p + 1);
                SvoView {
                    sentences_with_pivots: t.sentences_with_pivots + 1,
                    total_subject_length: if p > 0 {
                        wrap_add(t.total_subject_length, p)
                    } else {
                        t.total_subject_length
                    },
                    subject_count: if p > 0 {
                        t.subject_count + 1
                    } else {
                        t.subject_count
                    },
                    total_object_length: if after > 0 {
                        wrap_add(t.total_object_length, after)
                    } else {
                        t.total_object_length
                    },
                    object_count: if after > 0 {
                        t.object_count + 1
                    } else {
                        t.object_count
                    },
                    pivot_words: count_word(t.pivot_words, w),
                }
            },
        }
    }
}

/// Model of the pivot-word counts.
pub open spec fn word_counts_view(v: Seq<(String, usize)>) -> Seq<(Seq<char>, nat)> {
    v.map_values(|e: (String, usize)| (e.0@, e.1 as nat))
}

/// Tallies the subject-pivot-object structure of sentences: the first pivot
/// of each sentence (see `find_pivot_position`) splits it into subject and
/// object; pivot words are counted in order of first occurrence.
pub fn svo_tallies(sentences: &[String], pivots: &[(String, usize)]) -> (r: SvoTallies)
    ensures
        ({
            let v = svo_fold(strings_view(sentences@), pivots@);
            &&& r.sentences_with_pivots == v.sentences_with_pivots
            &&& r.total_subject_length == v.total_subject_length
            &&& r.subject_count == v.subject_count
            &&& r.total_object_length == v.total_object_length
            &&& r.object_count == v.object_count
            &&& word_counts_view(r.pivot_words@) == v.pivot_words
        }),
{
    let ghost sv = strings_view(sentences@);
    let mut with_pivots: usize = 0;
    let mut subject_total: usize = 0;
    let mut subjects: usize = 0;
    let mut object_total: usize = 0;
    let mut objects: usize = 0;
    let mut words: Vec<(String, usize)> = Vec::new();
    let mut i: usize = 0;
    while i < sentences.len()
        invariant
            i <= sentences.len(),
            sv == strings_view(sentences@),
            with_pivots <= i,
            subjects <= i,
            objects <= i,
            forall|j: int| 0 <= j < words@.len() ==> (#[trigger] words@[j]).1 <= i,
            ({
                let v = svo_fold(sv.take(i as int), pivots@);
                &&& with_pivots == v.sentences_with_pivots
                &&& subject_total == v.total_subject_length
                &&& subjects == v.subject_count
                &&& object_total == v.total_object_length
                &&& objects == v.object_count
                &&& word_counts_view(words@) == v.pivot_words
            }),
        decreases sentences.len() - i,
    {
        assert(sv.take(i + 1).drop_last() =~= sv.take(i as int));
        assert(sv.take(i + 1).last() == sentences@[i as int]@);
        match find_pivot_position(sentences[i].as_str(), pivots) {
            None => {},
            Some((p, w)) => {
                let n = cleaned_words(sentences[i].as_str()).len();
                proof {
                    lemma_pivot_from_bounds(cleaned(sentences@[i as int]@), pivots@, 0);
                }
                with_pivots = with_pivots + 1;
                if p > 0 {
                    subject_total = subject_total.wrapping_add(p);
                    subjects = subjects + 1;
                }
                let after = n - p - 1;
                if after > 0 {
                    object_total = object_total.wrapping_add(after);
                    objects = objects + 1;
                }
                let ghost wv = word_counts_view(words@);
                let mut j: usize = 0;
                while j < words.len() && words[j].0 != w
                    invariant
                        j <= words.len(),
                        forall|m: int| 0 <= m < j ==> (#[trigger] words@[m]).0@ != w@,
                    decreases words.len() - j,
                {
                    j = j + 1;
                }
                if j < words.len() {
                    let (k, c) = words.remove(j);
                    words.insert(j, (k, c + 1));
                    proof {
                        assert(wv[j as int].0 == w@);
                        let cj = choose|m: int| 0 <= m < wv.len() && wv[m].0 == w@;
                        assert(cj == j) by {
                            if cj < j {
                                assert(words@[cj].0@ != w@);
                            } else if cj > j {
                                lemma_word_counts_distinct(sv.take(i as int), pivots@);
                                assert(wv[cj].0 != wv[j as int].0);
                            }
                        }
                        assert(word_counts_view(words@) =~= wv.update(j as int, (w@, wv[j as int].1 + 1)));
                    }
                } else {
                    words.push((w, 1));
                    proof {
                        assert(!exists|m: int| 0 <= m < wv.len() && wv[m].0 == w@) by {
                            if exists|m: int| 0 <= m < wv.len() && wv[m].0 == w@ {
                                let m = choose|m: int| 0 <= m < wv.len() && wv[m].0 == w@;
                                assert(words@[m].0@ != w@);
                            }
                        }
                        assert(word_counts_view(words@) =~= wv.push((w@, 1)));
                    }
                }
            },
        }
        i = i + 1;
    }
    assert(sv.take(i as int) =~= sv);
    SvoTallies {
        sentences_with_pivots: with_pivots,
        total_subject_length: subject_total,
        subject_count: subjects,
        total_object_length: object_total,
        object_count: objects,
        pivot_words: words,
    }
}

proof fn lemma_pivot_from_bounds(toks: Seq<Seq<char>>, pivots: Seq<(String, usize)>, p: int)
    requires
        0 <= p,
    ensures
        pivot_from(toks, pivots, p) matches Some((q, w)) ==> p <= q < toks.len() && w == toks[q],
    decreases toks.len() - p,
{
    if p < toks.len() {
        lemma_pivot_from_bounds(toks, pivots, p + 1);
    }
}

proof fn lemma_word_counts_distinct(ss: Seq<Seq<char>>, pivots: Seq<(String, usize)>)
    ensures
        forall|a: int, b: int|
            0 <= a < b < svo_fold(ss, pivots).pivot_words.len() ==> svo_fold(ss, pivots).pivot_words[a].0 != svo_fold(
                ss,
                pivots,
            ).pivot_words[b].0,
    decreases ss.len(),
{
    if ss.len() > 0 {
        lemma_word_counts_distinct(ss.drop_last(), pivots);
        let t = svo_fold(ss.drop_last(), pivots);
        match first_pivot(ss.last(), pivots) {
            None => {},
            Some((p, w)) => {
                let ws = t.pivot_words;
                let r = count_word(ws, w);
                if exists|j: int| 0 <= j < ws.len() && ws[j].0 == w {
                    let j = choose|j: int| 0 <= j < ws.len() && ws[j].0 == w;
                    assert forall|a: int, b: int| 0 <= a < b < r.len() implies r[a].0 != r[b].0 by {
                        assert(r[a].0 == ws[a].0);
                        assert(r[b].0 == ws[b].0);
                    }
                } else {
                    assert forall|a: int, b: int| 0 <= a < b < r.len() implies r[a].0 != r[b].0 by {
                        if b < ws.len() {
                            assert(r[a] == ws[a] && r[b] == ws[b]);
                        } else {
                            assert(r[a] == ws[a]);
                        }
                    }
                }
            },
        }
    }
}

/// `s` with `x` placed after every trailing pair whose count is at least
/// `x`'s.
pub open spec fn insert_pair(s: Seq<(Seq<char>, nat)>, x: (Seq<char>, nat)) -> Seq<(Seq<char>, nat)>
    decreases s.len(),
{
    if s.len() == 0 {
        seq![x]
    } else if s.last().1 >= x.1 {
        s.push(x)
    } else {
        insert_pair(s.drop_last(), x).push(s.last())
    }
}

/// Pairs in decreasing order of count, equal counts in their order in `s`.
pub open spec fn ranked(s: Seq<(Seq<char>, nat)>) -> Seq<(Seq<char>, nat)>
    decreases s.len(),
{
    if s.len() == 0 {
        s
    } else {
        insert_pair(ranked(s.drop_last()), s.last())
    }
}

/// The (text, count) view of templates.
pub open spec fn template_pairs(s: Seq<crate::results::Template>) -> Seq<(Seq<char>, nat)> {
    s.map_values(|t: crate::results::Template| (t.pattern@, t.count as nat))
}

proof fn lemma_insert_pairs(s: Seq<crate::results::Template>, t: crate::results::Template)
    ensures
        template_pairs(crate::templates::insert_by_count(s, t)) == insert_pair(template_pairs(s), (t.pattern@, t.count as nat)),
    decreases s.len(),
{
    if s.len() == 0 {
        assert(template_pairs(seq![t]) =~= seq![(t.pattern@, t.count as nat)]);
    } else {
        assert(template_pairs(s).drop_last() =~= template_pairs(s.drop_last()));
        assert(template_pairs(s).last() == (s.last().pattern@, s.last().count as nat));
        if s.last().count >= t.count {
            assert(template_pairs(s.push(t)) =~= template_pairs(s).push((t.pattern@, t.count as nat)));
        } else {
            lemma_insert_pairs(s.drop_last(), t);
            let u = crate::templates::insert_by_count(s.drop_last(), t);
            assert(template_pairs(u.push(s.last())) =~= template_pairs(u).push((s.last().pattern@, s.last().count as nat)));
        }
    }
}

proof fn lemma_ranked_pairs(s: Seq<crate::results::Template>)
    ensures
        template_pairs(crate::templates::sorted_by_count(s)) == ranked(template_pairs(s)),
    decreases s.len(),
{
    if s.len() > 0 {
        lemma_ranked_pairs(s.drop_last());
        lemma_insert_pairs(crate::templates::sorted_by_count(s.drop_last()), s.last());
        assert(template_pairs(s).drop_last() =~= template_pairs(s.drop_last()));
        assert(template_pairs(s).last() == (s.last().pattern@, s.last().count as nat));
    } else {
        assert(template_pairs(s) =~= Seq::<(Seq<char>, nat)>::empty());
    }
}

/// The `n` most common pivot words, most common first, words with equal counts
/// in their order in `words`.
pub fn common_pivots(words: &Vec<(String, usize)>, n: usize) -> (r: Vec<String>)
    ensures
        ({
            let sorted = ranked(word_counts_view(words@));
            let k = if sorted.len() <= n {
                sorted.len() as int
            } else {
                n as int
            };
            &&& r@.len() == k
            &&& forall|i: int| 0 <= i < k ==> (#[trigger] r@[i])@ == sorted[i].0
        }),
{
    let mut ts: Vec<crate::results::Template> = Vec::new();
    let mut i: usize = 0;
    while i < words.len()
        invariant
            i <= words.len(),
            template_pairs(ts@) == word_counts_view(words@).take(i as int),
        decreases words.len() - i,
    {
        let t = crate::results::Template { pattern: words[i].0.clone(), count: words[i].1, examples: Vec::new() };
        let ghost prev = ts@;
        ts.push(t);
        proof {
            assert(template_pairs(ts@) =~= template_pairs(prev).push((t.pattern@, t.count as nat)));
            assert(word_counts_view(words@).take(i + 1) =~= word_counts_view(words@).take(i as int).push(
                (words@[i as int].0@, words@[i as int].1 as nat),
            ));
        }
        i = i + 1;
    }
    assert(word_counts_view(words@).take(i as int) =~= word_counts_view(words@));
    let ghost before = ts@;
    crate::templates::sort_templates_by_count(&mut ts);
    proof {
        lemma_ranked_pairs(before);
        assert(ts@ == crate::templates::sorted_by_count(before));
        assert(template_pairs(ts@) == ranked(word_counts_view(words@)));
    }
    let ghost sorted = template_pairs(ts@);
    let mut r: Vec<String> = Vec::new();
    let mut k: usize = 0;
    while k < ts.len() && k < n
        invariant
            k <= ts.len(),
            k <= n,
            sorted == template_pairs(ts@),
            sorted == ranked(word_counts_view(words@)),
            r@.len() == k,
            forall|j: int| 0 <= j < k ==> (#[trigger] r@[j])@ == sorted[j].0,
        decreases ts.len() - k,
    {
        r.push(ts[k].pattern.clone());
        k = k + 1;
    }
    r
}

} // verus!
