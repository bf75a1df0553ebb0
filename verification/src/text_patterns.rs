//! Sentence patterns for plain-text template mining: a sentence's words are
//! covered from left to right by frequent n-grams (longest first), frequent
//! phrases, or a numbered word placeholder.

use vstd::prelude::*;

use crate::markdown::{line_texts, space_joined};
use crate::sorted_map::{find_key, find_key_from, insert_pos, insert_pos_from, lemma_find_key_from, map_get, map_put};
use crate::text::{append_chars, chars_of, decimal, decimal_chars, string_of};

verus! {

/// The `n` words from position `i`, joined with single spaces.
pub open spec fn window_text(ts: Seq<Seq<char>>, i: int, n: int) -> Seq<char> {
    space_joined(ts.subrange(i, i + n))
}

/// `t` is the text of one of the entries.
pub open spec fn is_listed(entries: Seq<(String, usize)>, t: Seq<char>) -> bool {
    exists|k: int| 0 <= k < entries.len() && (#[trigger] entries[k]).0@ == t
}

/// The longest `n` from `hi` down to `lo` with a listed `n`-word window at `i`.
pub open spec fn longest_ngram(ts: Seq<Seq<char>>, i: int, lo: int, hi: int, ngrams: Seq<(String, usize)>) -> Option<int>
    decreases hi + 1 - lo,
{
    if hi < lo {
        None
    } else if i + hi <= ts.len() && is_listed(ngrams, window_text(ts, i, hi)) {
        Some(hi)
    } else {
        longest_ngram(ts, i, lo, hi - 1, ngrams)
    }
}

/// What `longest_ngram` finds lies between `lo` and `hi` and fits the words.
pub proof fn lemma_longest_ngram_bounds(ts: Seq<Seq<char>>, i: int, lo: int, hi: int, ngrams: Seq<(String, usize)>)
    ensures
        longest_ngram(ts, i, lo, hi, ngrams) matches Some(n) ==> lo <= n <= hi && i + n <= ts.len(),
    decreases hi + 1 - lo,
{
    if hi >= lo {
        lemma_longest_ngram_bounds(ts, i, lo, hi - 1, ngrams);
    }
}

/// `n` written with at least two digits (`{:02}`).
pub open spec fn two_digits(n: nat) -> Seq<char> {
    if n < 10 {
        seq!['0'] + decimal(n)
    } else {
        decimal(n)
    }
}

/// The placeholder for the dynamic word at position `i`: `[WORD_ii]`.
pub open spec fn word_placeholder(i: nat) -> Seq<char> {
    "[WORD_"@ + two_digits(i) + "]"@
}

/// The pattern parts from word `i` on: at each position the longest frequent
/// n-gram (sizes `hi` down to `lo`), else a frequent phrase of `plen` words, else
/// the position's word placeholder.
pub open spec fn pattern_parts(
    ts: Seq<Seq<char>>,
    i: int,
    ngrams: Seq<(String, usize)>,
    phrases: Seq<(String, usize)>,
    lo: int,
    hi: int,
    plen: int,
) -> Seq<Seq<char>>
    decreases ts.len() - i,
{
    if i < 0 || i >= ts.len() || lo < 1 || plen < 1 {
        Seq::empty()
    } else {
        proof {
            lemma_longest_ngram_bounds(ts, i, lo, hi, ngrams);
        }
        match longest_ngram(ts, i, lo, hi, ngrams) {
            Some(n) => seq![window_text(ts, i, n)] + pattern_parts(ts, i + n, ngrams, phrases, lo, hi, plen),
            None => if i + plen <= ts.len() && is_listed(phrases, window_text(ts, i, plen)) {
                seq![window_text(ts, i, plen)] + pattern_parts(ts, i + plen, ngrams, phrases, lo, hi, plen)
            } else {
                seq![word_placeholder(i as nat)] + pattern_parts(ts, i + 1, ngrams, phrases, lo, hi, plen)
            },
        }
    }
}

/// The `n` words of `tokens` from position `i`, joined with single spaces.
pub fn join_words(tokens: &[&str], i: usize, n: usize) -> (r: Vec<char>)
    requires
        i + n <= tokens.len(),
    ensures
        r@ == window_text(line_texts(tokens@), i as int, n as int),
{
    let ghost ts = line_texts(tokens@);
    let mut v: Vec<char> = Vec::new();
    let mut k: usize = i;
    while k < i + n
        invariant
            i <= k <= i + n,
            i + n <= tokens.len(),
            ts == line_texts(tokens@),
            v@ == space_joined(ts.subrange(i as int, k as int)),
        decreases i + n - k,
    {
        if k > i {
            v.push(' ');
        }
        append_chars(&mut v, chars_of(tokens[k]).as_slice());
        proof {
            let sub = ts.subrange(i as int, k + 1);
            assert(sub.drop_last() =~= ts.subrange(i as int, k as int));
            assert(sub.last() == ts[k as int]);
            if k == i {
                assert(ts.subrange(i as int, k as int) =~= Seq::<Seq<char>>::empty());
            }
        }
        k = k + 1;
    }
    v
}

/// Whether `t` is the text of one of the entries.
pub fn listed(entries: &[(String, usize)], t: &Vec<char>) -> (r: bool)
    ensures
        r == is_listed(entries@, t@),
{
    let s = string_of(t.as_slice());
    let mut k: usize = 0;
    while k < entries.len()
        invariant
            k <= entries.len(),
            s@ == t@,
            forall|j: int| 0 <= j < k ==> (#[trigger] entries@[j]).0@ != t@,
        decreases entries.len() - k,
    {
        if entries[k].0 == s {
            return true;
        }
        k = k + 1;
    }
    false
}

/// `n` with at least two digits.
fn two_digit_chars(n: usize) -> (r: Vec<char>)
    ensures
        r@ == two_digits(n as nat),
{
    let d = decimal_chars(n);
    if n < 10 {
        let mut v: Vec<char> = Vec::new();
        v.push('0');
        append_chars(&mut v, d.as_slice());
        assert(v@ =~= seq!['0'] + decimal(n as nat));
        v
    } else {
        d
    }
}

/// Builds the pattern of a sentence's words: frequent n-grams (sizes
/// `max_ngram_size` down to `min_ngram_size`, longest first) and frequent phrases
/// of `min_phrase_length` words stay as they are, every other word becomes a
/// `[WORD_ii]` placeholder numbered by its position; the parts are joined with
/// spaces.
pub fn build_text_pattern(
    tokens: &[&str],
    frequent_ngrams: &[(String, usize)],
    frequent_phrases: &[(String, usize)],
    min_ngram_size: usize,
    max_ngram_size: usize,
    min_phrase_length: usize,
) -> (r: String)
    requires
        min_ngram_size >= 1,
        min_phrase_length >= 1,
    ensures
        r@ == space_joined(pattern_parts(
            line_texts(tokens@),
            0,
            frequent_ngrams@,
            frequent_phrases@,
            min_ngram_size as int,
            max_ngram_size as int,
            min_phrase_length as int,
        )),
{
    let ghost ts = line_texts(tokens@);
    let ghost ng = frequent_ngrams@;
    let ghost ph = frequent_phrases@;
    let ghost lo = min_ngram_size as int;
    let ghost hi = max_ngram_size as int;
    let ghost pl = min_phrase_length as int;
    let mut parts: Vec<Vec<char>> = Vec::new();
    let mut i: usize = 0;
    while i < tokens.len()
        invariant
            i <= tokens.len(),
            ts == line_texts(tokens@),
            ng == frequent_ngrams@,
            ph == frequent_phrases@,
            lo == min_ngram_size,
            hi == max_ngram_size,
            pl == min_phrase_length,
            lo >= 1,
            pl >= 1,
            crate::text::char_vecs(parts@) + pattern_parts(ts, i as int, ng, ph, lo, hi, pl) == pattern_parts(ts, 0, ng, ph, lo, hi, pl),
        decreases tokens.len() - i,
    {
        proof {
            lemma_longest_ngram_bounds(ts, i as int, lo, hi, ng);
        }
        let ghost before = crate::text::char_vecs(parts@);
        let rest = tokens.len() - i;
        let mut n: usize = max_ngram_size;
        let mut found: usize = 0;
        while n >= min_ngram_size
            invariant_except_break
                found == 0,
            invariant
                min_ngram_size >= 1,
                n <= max_ngram_size,
                i < tokens.len(),
                rest == tokens.len() - i,
                ts == line_texts(tokens@),
                ng == frequent_ngrams@,
                lo == min_ngram_size,
                hi == max_ngram_size,
                longest_ngram(ts, i as int, lo, hi, ng) == longest_ngram(ts, i as int, lo, n as int, ng),
            ensures
                found == 0 ==> longest_ngram(ts, i as int, lo, hi, ng) is None,
                found > 0 ==> longest_ngram(ts, i as int, lo, hi, ng) == Some(found as int),
            decreases n,
        {
            if n <= rest {
                let cand = join_words(tokens, i, n);
                if listed(frequent_ngrams, &cand) {
                    found = n;
                    break;
                }
            }
            n = n - 1;
        }
        let mut phrase_ok = false;
        if found == 0 && min_phrase_length <= rest {
            let cand = join_words(tokens, i, min_phrase_length);
            phrase_ok = listed(frequent_phrases, &cand);
        }
        if found > 0 {
            let cand = join_words(tokens, i, found);
            proof {
                assert(pattern_parts(ts, i as int, ng, ph, lo, hi, pl) == seq![cand@] + pattern_parts(ts, i + found, ng, ph, lo, hi, pl));
            }
            parts.push(cand);
            i = i + found;
        } else if phrase_ok {
            let cand = join_words(tokens, i, min_phrase_length);
            proof {
                assert(pattern_parts(ts, i as int, ng, ph, lo, hi, pl) == seq![cand@] + pattern_parts(ts, i + pl, ng, ph, lo, hi, pl));
            }
            parts.push(cand);
            i = i + min_phrase_length;
        } else {
            let mut v: Vec<char> = Vec::new();
            proof {
                reveal_strlit("[WORD_");
                reveal_strlit("]");
            }
            append_chars(&mut v, chars_of("[WORD_").as_slice());
            append_chars(&mut v, two_digit_chars(i).as_slice());
            append_chars(&mut v, chars_of("]").as_slice());
            proof {
                assert(v@ =~= word_placeholder(i as nat));
                assert(pattern_parts(ts, i as int, ng, ph, lo, hi, pl) == seq![v@] + pattern_parts(ts, i + 1, ng, ph, lo, hi, pl));
            }
            parts.push(v);
            i = i + 1;
        }
    }
    let mut out: Vec<char> = Vec::new();
    let mut k: usize = 0;
    while k < parts.len()
        invariant
            k <= parts.len(),
            out@ == space_joined(crate::text::char_vecs(parts@).take(k as int)),
        decreases parts.len() - k,
    {
        if k > 0 {
            out.push(' ');
        }
        append_chars(&mut out, parts[k].as_slice());
        proof {
            let cv = crate::text::char_vecs(parts@);
            assert(cv.take(k + 1).drop_last() =~= cv.take(k as int));
        }
        k = k + 1;
    }
    proof {
        assert(pattern_parts(ts, i as int, ng, ph, lo, hi, pl) =~= Seq::<Seq<char>>::empty());
        assert(crate::text::char_vecs(parts@).take(k as int) =~= crate::text::char_vecs(parts@));
        assert(crate::text::char_vecs(parts@) + Seq::<Seq<char>>::empty() =~= crate::text::char_vecs(parts@));
    }
    string_of(out.as_slice())
}

proof fn lemma_no_frequent_words(ts: Seq<Seq<char>>, i: int, lo: int, hi: int, plen: int)
    requires
        0 <= i <= ts.len(),
        lo >= 1,
        plen >= 1,
    ensures
        pattern_parts(ts, i, Seq::empty(), Seq::empty(), lo, hi, plen) =~= Seq::new(
            (ts.len() - i) as nat,
            |k: int| word_placeholder((i + k) as nat),
        ),
    decreases ts.len() - i,
{
    if i < ts.len() {
        lemma_no_frequent_words(ts, i + 1, lo, hi, plen);
        lemma_longest_none(ts, i, lo, hi);
    }
}

proof fn lemma_longest_none(ts: Seq<Seq<char>>, i: int, lo: int, hi: int)
    ensures
        longest_ngram(ts, i, lo, hi, Seq::empty()) is None,
    decreases hi + 1 - lo,
{
    if hi >= lo {
        lemma_longest_none(ts, i, lo, hi - 1);
    }
}

/// With no frequent n-grams and no frequent phrases, every word of a sentence
/// becomes the placeholder of its position: `[WORD_00] [WORD_01] ...`.
pub proof fn law_pattern_without_frequent_words_is_all_placeholders(ts: Seq<Seq<char>>, lo: int, hi: int, plen: int)
    requires
        lo >= 1,
        plen >= 1,
    ensures
        pattern_parts(ts, 0, Seq::empty(), Seq::empty(), lo, hi, plen) == Seq::new(
            ts.len(),
            |k: int| word_placeholder(k as nat),
        ),
{
    lemma_no_frequent_words(ts, 0, lo, hi, plen);
    assert(Seq::new((ts.len() - 0) as nat, |k: int| word_placeholder((0 + k) as nat)) =~= Seq::new(
        ts.len(),
        |k: int| word_placeholder(k as nat),
    ));
}

// ---------------------------------------------------------------------------
// Examples
// ---------------------------------------------------------------------------

/// Model of an examples map: placeholder names with their example words.
pub open spec fn examples_view(ex: Seq<(String, Vec<String>)>) -> Seq<(Seq<char>, Seq<Seq<char>>)> {
    ex.map_values(|e: (String, Vec<String>)| (e.0@, crate::pickle::strings_view(e.1@)))
}

/// The name of the `idx`-th dynamic word's placeholder: `WORD_ii`.
pub open spec fn example_key(idx: nat) -> Seq<char> {
    "WORD_"@ + two_digits(idx)
}

/// The examples collected from word `i` on (the `idx`-th dynamic word next):
/// frequent n-grams and phrases are passed over; each other word is added, when
/// new, to the examples of its placeholder, and the scan stops once a
/// placeholder has more than `max_examples` examples.
pub open spec fn examples_scan(
    ts: Seq<Seq<char>>,
    i: int,
    idx: nat,
    ex: Seq<(Seq<char>, Seq<Seq<char>>)>,
    ngrams: Seq<(String, usize)>,
    phrases: Seq<(String, usize)>,
    lo: int,
    hi: int,
    plen: int,
    max_examples: nat,
) -> Seq<(Seq<char>, Seq<Seq<char>>)>
    decreases ts.len() - i,
{
    if i < 0 || i >= ts.len() || lo < 1 || plen < 1 {
        ex
    } else {
        proof {
            lemma_longest_ngram_bounds(ts, i, lo, hi, ngrams);
        }
        match longest_ngram(ts, i, lo, hi, ngrams) {
            Some(n) => examples_scan(ts, i + n, idx, ex, ngrams, phrases, lo, hi, plen, max_examples),
            None => if i + plen <= ts.len() && is_listed(phrases, window_text(ts, i, plen)) {
                examples_scan(ts, i + plen, idx, ex, ngrams, phrases, lo, hi, plen, max_examples)
            } else {
                let key = example_key(idx);
                let cur = match map_get(ex, key) {
                    Some(v) => v,
                    None => Seq::empty(),
                };
                let new = if cur.contains(ts[i]) {
                    cur
                } else {
                    cur.push(ts[i])
                };
                let ex2 = map_put(ex, key, new);
                if new.len() > max_examples {
                    ex2
                } else {
                    examples_scan(ts, i + 1, idx + 1, ex2, ngrams, phrases, lo, hi, plen, max_examples)
                }
            },
        }
    }
}

/// Adds `word` (when new) to the examples of placeholder `key`; gives the
/// number of its examples after.
fn add_example(ex: &mut Vec<(String, Vec<String>)>, key: String, word: &str) -> (n: usize)
    ensures
        ({
            let cur = match map_get(examples_view(old(ex)@), key@) {
                Some(v) => v,
                None => Seq::empty(),
            };
            let new = if cur.contains(word@) {
                cur
            } else {
                cur.push(word@)
            };
            &&& examples_view(final(ex)@) == map_put(examples_view(old(ex)@), key@, new)
            &&& n == new.len()
        }),
{
    let ghost e0 = examples_view(ex@);
    let mut j: usize = 0;
    while j < ex.len() && ex[j].0 != key
        invariant
            j <= ex.len(),
            e0 == examples_view(ex@),
            find_key(e0, key@) == find_key_from(e0, key@, j as int),
        decreases ex.len() - j,
    {
        j = j + 1;
    }
    proof {
        lemma_find_key_from(e0, key@, j as int);
    }
    let w = word.to_owned();
    if j < ex.len() {
        assert(e0[j as int].0 == key@);
        assert(find_key(e0, key@) == j);
        let (k, mut list) = ex.remove(j);
        let ghost cur = crate::pickle::strings_view(list@);
        assert(cur == e0[j as int].1);
        let mut m: usize = 0;
        while m < list.len() && list[m] != w
            invariant
                m <= list.len(),
                cur == crate::pickle::strings_view(list@),
                w@ == word@,
                forall|q: int| 0 <= q < m ==> cur[q] != word@,
            decreases list.len() - m,
        {
            m = m + 1;
        }
        let present = m < list.len();
        proof {
            if present {
                assert(cur[m as int] == word@);
            } else {
                assert(!cur.contains(word@));
            }
        }
        if !present {
            list.push(w);
            assert(crate::pickle::strings_view(list@) =~= cur.push(word@));
        }
        let n = list.len();
        ex.insert(j, (key, list));
        assert(examples_view(ex@) =~= e0.update(j as int, (key@, crate::pickle::strings_view(list@))));
        n
    } else {
        let kc = chars_of(key.as_str());
        let mut p: usize = 0;
        while p < ex.len() && crate::sorted_map::lex_less(chars_of(ex[p].0.as_str()).as_slice(), kc.as_slice())
            invariant
                p <= ex.len(),
                kc@ == key@,
                e0 == examples_view(ex@),
                insert_pos(e0, key@) == insert_pos_from(e0, key@, p as int),
            decreases ex.len() - p,
        {
            p = p + 1;
        }
        let mut list: Vec<String> = Vec::new();
        list.push(w);
        assert(crate::pickle::strings_view(list@) =~= Seq::<Seq<char>>::empty().push(word@));
        ex.insert(p, (key, list));
        assert(examples_view(ex@) =~= e0.insert(p as int, (key@, crate::pickle::strings_view(list@))));
        1
    }
}

/// Collects the dynamic words of a sentence as examples of their placeholders
/// (`WORD_00`, `WORD_01`, ... numbered over the dynamic words), passing over
/// frequent n-grams and phrases; stops once a placeholder has more than
/// `max_examples_per_placeholder` examples.
pub fn extract_text_examples(
    tokens: &[&str],
    frequent_ngrams: &[(String, usize)],
    frequent_phrases: &[(String, usize)],
    examples: &mut Vec<(String, Vec<String>)>,
    min_ngram_size: usize,
    max_ngram_size: usize,
    min_phrase_length: usize,
    max_examples_per_placeholder: usize,
)
    requires
        min_ngram_size >= 1,
        min_phrase_length >= 1,
    ensures
        examples_view(final(examples)@) == examples_scan(
            line_texts(tokens@),
            0,
            0,
            examples_view(old(examples)@),
            frequent_ngrams@,
            frequent_phrases@,
            min_ngram_size as int,
            max_ngram_size as int,
            min_phrase_length as int,
            max_examples_per_placeholder as nat,
        ),
{
    let ghost ts = line_texts(tokens@);
    let ghost ng = frequent_ngrams@;
    let ghost ph = frequent_phrases@;
    let ghost lo = min_ngram_size as int;
    let ghost hi = max_ngram_size as int;
    let ghost pl = min_phrase_length as int;
    let ghost mx = max_examples_per_placeholder as nat;
    let ghost goal = examples_scan(ts, 0, 0, examples_view(examples@), ng, ph, lo, hi, pl, mx);
    let mut i: usize = 0;
    let mut idx: usize = 0;
    while i < tokens.len()
        invariant
            i <= tokens.len(),
            idx <= i,
            ts == line_texts(tokens@),
            ng == frequent_ngrams@,
            ph == frequent_phrases@,
            lo == min_ngram_size,
            hi == max_ngram_size,
            pl == min_phrase_length,
            mx == max_examples_per_placeholder,
            lo >= 1,
            pl >= 1,
            examples_scan(ts, i as int, idx as nat, examples_view(examples@), ng, ph, lo, hi, pl, mx) == goal,
            goal == examples_scan(ts, 0, 0, examples_view(old(examples)@), ng, ph, lo, hi, pl, mx),
        decreases tokens.len() - i,
    {
        proof {
            lemma_longest_ngram_bounds(ts, i as int, lo, hi, ng);
        }
        let rest = tokens.len() - i;
        let mut n: usize = max_ngram_size;
        let mut found: usize = 0;
        while n >= min_ngram_size
            invariant_except_break
                found == 0,
            invariant
                min_ngram_size >= 1,
                n <= max_ngram_size,
                i < tokens.len(),
                rest == tokens.len() - i,
                ts == line_texts(tokens@),
                ng == frequent_ngrams@,
                lo == min_ngram_size,
                hi == max_ngram_size,
                longest_ngram(ts, i as int, lo, hi, ng) == longest_ngram(ts, i as int, lo, n as int, ng),
            ensures
                found == 0 ==> longest_ngram(ts, i as int, lo, hi, ng) is None,
                found > 0 ==> longest_ngram(ts, i as int, lo, hi, ng) == Some(found as int),
            decreases n,
        {
            if n <= rest {
                let cand = join_words(tokens, i, n);
                if listed(frequent_ngrams, &cand) {
                    found = n;
                    break;
                }
            }
            n = n - 1;
        }
        if found > 0 {
            i = i + found;
            continue;
        }
        let mut phrase_ok = false;
        if min_phrase_length <= rest {
            let cand = join_words(tokens, i, min_phrase_length);
            phrase_ok = listed(frequent_phrases, &cand);
        }
        if phrase_ok {
            i = i + min_phrase_length;
            continue;
        }
        proof {
            reveal_strlit("WORD_");
        }
        let mut kv = chars_of("WORD_");
        append_chars(&mut kv, two_digit_chars(idx).as_slice());
        let key = string_of(kv.as_slice());
        assert(key@ == example_key(idx as nat));
        assert(tokens@[i as int]@ == ts[i as int]);
        let ghost before = examples_view(examples@);
        proof {
            assert(longest_ngram(ts, i as int, lo, hi, ng) is None);
            assert(!(i + pl <= ts.len() && is_listed(ph, window_text(ts, i as int, pl))));
        }
        let count = add_example(examples, key, tokens[i]);
        proof {
            let cur = match map_get(before, key@) {
                Some(v) => v,
                None => Seq::empty(),
            };
            let new = if cur.contains(ts[i as int]) {
                cur
            } else {
                cur.push(ts[i as int])
            };
            assert(examples_view(examples@) == map_put(before, key@, new));
            assert(examples_scan(ts, i as int, idx as nat, before, ng, ph, lo, hi, pl, mx) == if new.len() > mx {
                map_put(before, key@, new)
            } else {
                examples_scan(ts, i + 1, (idx + 1) as nat, map_put(before, key@, new), ng, ph, lo, hi, pl, mx)
            });
        }
        if count > max_examples_per_placeholder {
            return;
        }
        idx = idx + 1;
        i = i + 1;
    }
}

} // verus!
