//! Integer tallies behind a writing footprint: words and distinct words of a
//! text, words per sentence, closing punctuation, dialogue and commas.

use vstd::prelude::*;

use crate::pickle::strings_view;
use crate::pivots::{alphanumeric, char_is_alphanumeric, split_words, wrap_add, words};
use crate::text::{chars_of, count_char, count_occurrences, string_of, trim, trim_chars};
use vstd::hash_map::StringHashMap;

verus! {

broadcast use vstd::seq_lib::group_seq_properties;

/// `w` without its leading characters that are not alphanumeric.
pub open spec fn strip_front(w: Seq<char>) -> Seq<char>
    decreases w.len(),
{
    if w.len() > 0 && !alphanumeric(w[0]) {
        strip_front(w.drop_first())
    } else {
        w
    }
}

/// `w` without its trailing characters that are not alphanumeric.
pub open spec fn strip_back(w: Seq<char>) -> Seq<char>
    decreases w.len(),
{
    if w.len() > 0 && !alphanumeric(w.last()) {
        strip_back(w.drop_last())
    } else {
        w
    }
}

/// `w` trimmed of non-alphanumeric characters at both ends
/// (`str::trim_matches(|c| !c.is_alphanumeric())`).
pub open spec fn trim_non_alnum(w: Seq<char>) -> Seq<char> {
    strip_back(strip_front(w))
}

/// The words of a text that stay non-empty once trimmed, trimmed.
pub open spec fn kept_words(ws: Seq<Seq<char>>) -> Seq<Seq<char>>
    decreases ws.len(),
{
    if ws.len() == 0 {
        Seq::empty()
    } else {
        let t = trim_non_alnum(ws.last());
        if t.len() > 0 {
            kept_words(ws.drop_last()).push(t)
        } else {
            kept_words(ws.drop_last())
        }
    }
}

/// The vocabulary words of a text.
pub open spec fn text_words(content: Seq<char>) -> Seq<Seq<char>> {
    kept_words(words(content))
}

/// A sentence ends, once trimmed, with `c`.
pub open spec fn ends_in(s: Seq<char>, c: char) -> bool {
    trim(s).len() > 0 && trim(s).last() == c
}

/// A sentence holds a double or a single quote.
pub open spec fn has_dialogue(s: Seq<char>) -> bool {
    s.contains('"') || s.contains('\'')
}

/// Sentences that end in `.`; those that end in `?`; those that end in `!`.
pub open spec fn closing_count(ss: Seq<Seq<char>>, c: char) -> nat
    decreases ss.len(),
{
    if ss.len() == 0 {
        0
    } else {
        closing_count(ss.drop_last(), c) + (if ends_in(ss.last(), c) { 1nat } else { 0nat })
    }
}

/// Sentences with dialogue.
pub open spec fn dialogue_count(ss: Seq<Seq<char>>) -> nat
    decreases ss.len(),
{
    if ss.len() == 0 {
        0
    } else {
        dialogue_count(ss.drop_last()) + (if has_dialogue(ss.last()) { 1nat } else { 0nat })
    }
}

/// Words over all sentences, as a wrapping `usize` sum.
pub open spec fn sentence_word_total(ss: Seq<Seq<char>>) -> int
    decreases ss.len(),
{
    if ss.len() == 0 {
        0
    } else {
        wrap_add(sentence_word_total(ss.drop_last()), words(ss.last()).len() as int)
    }
}

/// Commas over all sentences, as a wrapping `usize` sum.
pub open spec fn comma_total(ss: Seq<Seq<char>>) -> int
    decreases ss.len(),
{
    if ss.len() == 0 {
        0
    } else {
        wrap_add(comma_total(ss.drop_last()), count_char(ss.last(), ',') as int)
    }
}

/// What a writing footprint is computed from, in integers.
pub struct WritingTallies {
    /// Vocabulary words of the text.
    pub total_words: usize,
    /// Distinct vocabulary words of the text.
    pub unique_words: usize,
    /// Whitespace-separated words over all sentences.
    pub sentence_words: usize,
    /// Sentences ending in `.`.
    pub period_count: usize,
    /// Sentences ending in `?`.
    pub question_count: usize,
    /// Sentences ending in `!`.
    pub exclamation_count: usize,
    /// Sentences holding a quote.
    pub dialogue_count: usize,
    /// Commas over all sentences.
    pub comma_count: usize,
    /// Number of sentences.
    pub sentence_count: usize,
}

/// `w` trimmed of non-alphanumeric characters at both ends.
fn trim_word(w: &[char]) -> (r: Vec<char>)
    ensures
        r@ == trim_non_alnum(w@),
{
    let n = w.len();
    let mut a: usize = 0;
    while a < n && !char_is_alphanumeric(w[a])
        invariant
            a <= n == w.len(),
            strip_front(w@) == strip_front(w@.subrange(a as int, n as int)),
        decreases n - a,
    {
        assert(w@.subrange(a as int, n as int).drop_first() =~= w@.subrange(a + 1, n as int));
        a = a + 1;
    }
    assert(strip_front(w@.subrange(a as int, n as int)) == w@.subrange(a as int, n as int));
    let mut b: usize = n;
    while b > a && !char_is_alphanumeric(w[b - 1])
        invariant
            a <= b <= n == w.len(),
            strip_back(w@.subrange(a as int, n as int)) == strip_back(w@.subrange(a as int, b as int)),
        decreases b - a,
    {
        assert(w@.subrange(a as int, b as int).drop_last() =~= w@.subrange(a as int, b - 1));
        b = b - 1;
    }
    let mut r: Vec<char> = Vec::new();
    let mut k: usize = a;
    while k < b
        invariant
            a <= k <= b <= w.len(),
            r@ == w@.subrange(a as int, k as int),
        decreases b - k,
    {
        r.push(w[k]);
        k = k + 1;
        assert(r@ =~= w@.subrange(a as int, k as int));
    }
    r
}

/// Whether `c` occurs in `s`.
fn holds_char(s: &[char], c: char) -> (r: bool)
    ensures
        r == s@.contains(c),
{
    let mut i: usize = 0;
    while i < s.len()
        invariant
            i <= s.len(),
            forall|j: int| 0 <= j < i ==> s@[j] != c,
        decreases s.len() - i,
    {
        if s[i] == c {
            assert(s@[i as int] == c);
            return true;
        }
        i = i + 1;
    }
    false
}

/// The vocabulary words of a text, trimmed.
fn vocabulary(content: &str) -> (r: Vec<Vec<char>>)
    ensures
        crate::text::char_vecs(r@) == text_words(content@),
{
    let ws = split_words(content);
    let ghost wv = crate::text::char_vecs(ws@);
    let mut r: Vec<Vec<char>> = Vec::new();
    let mut i: usize = 0;
    while i < ws.len()
        invariant
            i <= ws.len(),
            wv == crate::text::char_vecs(ws@),
            wv == words(content@),
            crate::text::char_vecs(r@) == kept_words(wv.take(i as int)),
        decreases ws.len() - i,
    {
        assert(wv.take(i + 1).drop_last() =~= wv.take(i as int));
        assert(wv.take(i + 1).last() == ws@[i as int]@);
        let t = trim_word(ws[i].as_slice());
        if t.len() > 0 {
            let ghost prev = crate::text::char_vecs(r@);
            r.push(t);
            assert(crate::text::char_vecs(r@) =~= prev.push(t@));
        }
        i = i + 1;
    }
    assert(wv.take(i as int) =~= wv);
    r
}

/// Tallies the words of a text and the punctuation of its sentences.
pub fn writing_tallies(sentences: &[String], content: &str) -> (r: WritingTallies)
    ensures
        r.total_words == text_words(content@).len(),
        r.unique_words == text_words(content@).to_set().len(),
        r.sentence_words == sentence_word_total(strings_view(sentences@)),
        r.period_count == closing_count(strings_view(sentences@), '.'),
        r.question_count == closing_count(strings_view(sentences@), '?'),
        r.exclamation_count == closing_count(strings_view(sentences@), '!'),
        r.dialogue_count == dialogue_count(strings_view(sentences@)),
        r.comma_count == comma_total(strings_view(sentences@)),
        r.sentence_count == sentences.len(),
        r.unique_words <= r.total_words,
        r.period_count + r.question_count + r.exclamation_count <= r.sentence_count,
        r.dialogue_count <= r.sentence_count,
{
    let vocab = vocabulary(content);
    let ghost tw = crate::text::char_vecs(vocab@);
    let mut seen: StringHashMap<usize> = StringHashMap::new();
    let mut i: usize = 0;
    while i < vocab.len()
        invariant
            i <= vocab.len(),
            tw == crate::text::char_vecs(vocab@),
            seen@.dom() == tw.take(i as int).to_set(),
        decreases vocab.len() - i,
    {
        let key = string_of(vocab[i].as_slice());
        seen.insert(key, i);
        proof {
            assert(tw.take(i + 1) =~= tw.take(i as int).push(tw[i as int]));
            tw.take(i as int).lemma_push_to_set_commute(tw[i as int]);
        }
        i = i + 1;
    }
    assert(tw.take(i as int) =~= tw);
    let unique = seen.len();
    proof {
        tw.lemma_cardinality_of_set();
    }

    let ghost sv = strings_view(sentences@);
    let mut words_total: usize = 0;
    let mut periods: usize = 0;
    let mut questions: usize = 0;
    let mut exclamations: usize = 0;
    let mut dialogues: usize = 0;
    let mut commas: usize = 0;
    let mut j: usize = 0;
    while j < sentences.len()
        invariant
            j <= sentences.len(),
            sv == strings_view(sentences@),
            periods + questions + exclamations <= j,
            dialogues <= j,
            0 <= sentence_word_total(sv.take(j as int)) <= usize::MAX,
            0 <= comma_total(sv.take(j as int)) <= usize::MAX,
            words_total == sentence_word_total(sv.take(j as int)),
            periods == closing_count(sv.take(j as int), '.'),
            questions == closing_count(sv.take(j as int), '?'),
            exclamations == closing_count(sv.take(j as int), '!'),
            dialogues == dialogue_count(sv.take(j as int)),
            commas == comma_total(sv.take(j as int)),
        decreases sentences.len() - j,
    {
        let ghost cur = sv.take(j as int);
        assert(sv.take(j + 1).drop_last() =~= cur);
        assert(sv.take(j + 1).last() == sentences@[j as int]@);
        let s = chars_of(sentences[j].as_str());
        let ws = split_words(sentences[j].as_str());
        let n = ws.len();
        assert(words(sentences@[j as int]@).len() == n);
        words_total = words_total.wrapping_add(n);
        let t = trim_chars(s.as_slice());
        if t.len() > 0 {
            let last = t[t.len() - 1];
            if last == '.' {
                periods = periods + 1;
            } else if last == '?' {
                questions = questions + 1;
            } else if last == '!' {
                exclamations = exclamations + 1;
            }
        }
        if holds_char(s.as_slice(), '"') || holds_char(s.as_slice(), '\'') {
            dialogues = dialogues + 1;
        }
        commas = commas.wrapping_add(count_occurrences(s.as_slice(), ','));
        j = j + 1;
    }
    assert(sv.take(j as int) =~= sv);
    WritingTallies {
        total_words: vocab.len(),
        unique_words: unique,
        sentence_words: words_total,
        period_count: periods,
        question_count: questions,
        exclamation_count: exclamations,
        dialogue_count: dialogues,
        comma_count: commas,
        sentence_count: sentences.len(),
    }
}

// ---------------------------------------------------------------------------
// Laws
// ---------------------------------------------------------------------------

/// No character of `s` is alphanumeric.
pub open spec fn no_alnum(s: Seq<char>) -> bool {
    forall|i: int| 0 <= i < s.len() ==> !alphanumeric(#[trigger] s[i])
}

proof fn lemma_strip_front_shape(w: Seq<char>)
    ensures
        strip_front(w).len() <= w.len(),
        strip_front(w) == w.subrange(w.len() - strip_front(w).len(), w.len() as int),
        forall|i: int| 0 <= i < w.len() - strip_front(w).len() ==> !alphanumeric(#[trigger] w[i]),
        strip_front(w).len() > 0 ==> alphanumeric(strip_front(w)[0]),
    decreases w.len(),
{
    if w.len() > 0 && !alphanumeric(w[0]) {
        let w2 = w.drop_first();
        lemma_strip_front_shape(w2);
        let t = strip_front(w2);
        assert(w.subrange(w.len() - t.len(), w.len() as int) =~= w2.subrange(w2.len() - t.len(), w2.len() as int));
        assert forall|i: int| 0 <= i < w.len() - t.len() implies !alphanumeric(#[trigger] w[i]) by {
            if i > 0 {
                assert(w[i] == w2[i - 1]);
            }
        }
    } else {
        assert(w.subrange(0, w.len() as int) =~= w);
    }
}

proof fn lemma_strip_back_shape(w: Seq<char>)
    ensures
        strip_back(w).len() <= w.len(),
        strip_back(w) == w.subrange(0, strip_back(w).len() as int),
        forall|i: int| strip_back(w).len() <= i < w.len() ==> !alphanumeric(#[trigger] w[i]),
        strip_back(w).len() > 0 ==> alphanumeric(strip_back(w).last()),
    decreases w.len(),
{
    if w.len() > 0 && !alphanumeric(w.last()) {
        let w2 = w.drop_last();
        lemma_strip_back_shape(w2);
        let t = strip_back(w2);
        assert(w.subrange(0, t.len() as int) =~= w2.subrange(0, t.len() as int));
        assert forall|i: int| t.len() <= i < w.len() implies !alphanumeric(#[trigger] w[i]) by {
            if i < w.len() - 1 {
                assert(w[i] == w2[i]);
            }
        }
    } else {
        assert(w.subrange(0, w.len() as int) =~= w);
    }
}

/// Law: trimming a word keeps a contiguous piece of it that starts and ends
/// with an alphanumeric character, and everything dropped before and after it
/// is not alphanumeric (so the piece is empty exactly when the word has no
/// alphanumeric character).
pub proof fn law_trim_keeps_alphanumeric_core(w: Seq<char>)
    ensures
        trim_non_alnum(w).len() > 0 ==> alphanumeric(trim_non_alnum(w)[0]) && alphanumeric(
            trim_non_alnum(w).last(),
        ),
        exists|a: int|
            0 <= a && a + trim_non_alnum(w).len() <= w.len() && trim_non_alnum(w) == w.subrange(
                a,
                a + trim_non_alnum(w).len(),
            ) && no_alnum(w.subrange(0, a)) && no_alnum(
                w.subrange(a + trim_non_alnum(w).len(), w.len() as int),
            ),
{
    let f = strip_front(w);
    let t = strip_back(f);
    lemma_strip_front_shape(w);
    lemma_strip_back_shape(f);
    let a = w.len() - f.len();
    assert(t =~= w.subrange(a, a + t.len()));
    assert(no_alnum(w.subrange(0, a)));
    assert forall|i: int| 0 <= i < w.len() - (a + t.len()) implies !alphanumeric(
        #[trigger] w.subrange(a + t.len(), w.len() as int)[i],
    ) by {
        assert(w.subrange(a + t.len(), w.len() as int)[i] == f[t.len() + i]);
    }
    if t.len() > 0 {
        assert(t[0] == f[0]);
    }
}

proof fn lemma_strip_back_drops_tail(x: Seq<char>, p: Seq<char>)
    requires
        no_alnum(p),
    ensures
        strip_back(x + p) == strip_back(x),
    decreases p.len(),
{
    if p.len() > 0 {
        assert((x + p).drop_last() =~= x + p.drop_last());
        assert(!alphanumeric(p[p.len() - 1]));
        lemma_strip_back_drops_tail(x, p.drop_last());
    } else {
        assert(x + p =~= x);
    }
}

proof fn lemma_strip_front_keeps_tail(w: Seq<char>, p: Seq<char>)
    requires
        w.len() > 0,
        alphanumeric(w.last()),
    ensures
        strip_front(w + p) == strip_front(w) + p,
    decreases w.len(),
{
    assert((w + p)[0] == w[0]);
    if !alphanumeric(w[0]) {
        assert(w.len() > 1);
        assert((w + p).drop_first() =~= w.drop_first() + p);
        lemma_strip_front_keeps_tail(w.drop_first(), p);
    }
}

proof fn lemma_strip_front_drops_head(p: Seq<char>, w: Seq<char>)
    requires
        no_alnum(p),
    ensures
        strip_front(p + w) == strip_front(w),
    decreases p.len(),
{
    if p.len() > 0 {
        assert((p + w)[0] == p[0]);
        assert((p + w).drop_first() =~= p.drop_first() + w);
        lemma_strip_front_drops_head(p.drop_first(), w);
    } else {
        assert(p + w =~= w);
    }
}

/// Law: punctuation (any non-alphanumeric characters) before or after a word
/// does not change it as a vocabulary word: `cat`, `cat.`, `cat!` and `"cat"`
/// are one word.
pub proof fn law_punctuation_around_word_ignored(pre: Seq<char>, w: Seq<char>, post: Seq<char>)
    requires
        no_alnum(pre),
        no_alnum(post),
        w.len() > 0,
        alphanumeric(w.last()),
    ensures
        trim_non_alnum(pre + w + post) == trim_non_alnum(w),
{
    assert(pre + w + post =~= pre + (w + post));
    lemma_strip_front_drops_head(pre, w + post);
    lemma_strip_front_keeps_tail(w, post);
    lemma_strip_back_drops_tail(strip_front(w), post);
}

/// Law: every vocabulary word of a text is non-empty and starts and ends with
/// an alphanumeric character.
pub proof fn law_vocabulary_words_alphanumeric_at_ends(content: Seq<char>)
    ensures
        forall|i: int|
            0 <= i < text_words(content).len() ==> (#[trigger] text_words(content)[i]).len() > 0
                && alphanumeric(text_words(content)[i][0]) && alphanumeric(text_words(content)[i].last()),
{
    lemma_kept_words_ends(words(content));
}

proof fn lemma_kept_words_ends(ws: Seq<Seq<char>>)
    ensures
        forall|i: int|
            0 <= i < kept_words(ws).len() ==> (#[trigger] kept_words(ws)[i]).len() > 0 && alphanumeric(
                kept_words(ws)[i][0],
            ) && alphanumeric(kept_words(ws)[i].last()),
    decreases ws.len(),
{
    if ws.len() > 0 {
        lemma_kept_words_ends(ws.drop_last());
        law_trim_keeps_alphanumeric_core(ws.last());
        let prev = kept_words(ws.drop_last());
        let t = trim_non_alnum(ws.last());
        if t.len() > 0 {
            assert forall|i: int| 0 <= i < kept_words(ws).len() implies (#[trigger] kept_words(ws)[i]).len() > 0
                && alphanumeric(kept_words(ws)[i][0]) && alphanumeric(kept_words(ws)[i].last()) by {
                if i < prev.len() {
                    assert(kept_words(ws)[i] == prev[i]);
                } else {
                    assert(kept_words(ws)[i] == t);
                }
            }
        }
    }
}

} // verus!
