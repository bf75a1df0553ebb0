//! Ordering of mined templates: most frequent first, ties in their original
//! order.

use vstd::prelude::*;

use crate::results::Template;

verus! {

/// `s` with `t` placed after every trailing element whose count is at least
/// `t`'s (inserting into a list sorted by decreasing count keeps earlier equal
/// counts first).
pub open spec fn insert_by_count(s: Seq<Template>, t: Template) -> Seq<Template>
    decreases s.len(),
{
    if s.len() == 0 {
        seq![t]
    } else if s.last().count >= t.count {
        s.push(t)
    } else {
        insert_by_count(s.drop_last(), t).push(s.last())
    }
}

/// Templates in decreasing order of count, equal counts in their order in `s`.
pub open spec fn sorted_by_count(s: Seq<Template>) -> Seq<Template>
    decreases s.len(),
{
    if s.len() == 0 {
        s
    } else {
        insert_by_count(sorted_by_count(s.drop_last()), s.last())
    }
}

/// Counts never increase along `s`.
pub open spec fn counts_descending(s: Seq<Template>) -> bool {
    forall|i: int, j: int| 0 <= i < j < s.len() ==> s[i].count >= s[j].count
}

/// The templates of `s` whose count is `c`, in order.
pub open spec fn with_count(s: Seq<Template>, c: usize) -> Seq<Template>
    decreases s.len(),
{
    if s.len() == 0 {
        s
    } else if s.last().count == c {
        with_count(s.drop_last(), c).push(s.last())
    } else {
        with_count(s.drop_last(), c)
    }
}

/// Inserting where the scan from the right stops is `insert_by_count`.
proof fn lemma_insert_at(s: Seq<Template>, t: Template, p: int)
    requires
        0 <= p <= s.len(),
        p == 0 || s[p - 1].count >= t.count,
        forall|j: int| p <= j < s.len() ==> s[j].count < t.count,
    ensures
        insert_by_count(s, t) == s.insert(p, t),
    decreases s.len(),
{
    if s.len() == 0 {
        assert(s.insert(p, t) =~= seq![t]);
    } else if p == s.len() {
        assert(s.insert(p, t) =~= s.push(t));
    } else {
        lemma_insert_at(s.drop_last(), t, p);
        assert(s.insert(p, t) =~= s.drop_last().insert(p, t).push(s.last()));
    }
}

proof fn lemma_with_count_push(s: Seq<Template>, t: Template, c: usize)
    ensures
        with_count(s.push(t), c) == (if t.count == c {
            with_count(s, c).push(t)
        } else {
            with_count(s, c)
        }),
{
    assert(s.push(t).drop_last() =~= s);
}

/// Inserting keeps every same-count run and adds `t` at the end of its own.
proof fn lemma_insert_with_count(s: Seq<Template>, t: Template, c: usize)
    ensures
        with_count(insert_by_count(s, t), c) == (if t.count == c {
            with_count(s, c).push(t)
        } else {
            with_count(s, c)
        }),
    decreases s.len(),
{
    if s.len() == 0 {
        assert(seq![t].drop_last() =~= s);
    } else if s.last().count >= t.count {
        lemma_with_count_push(s, t, c);
    } else {
        lemma_insert_with_count(s.drop_last(), t, c);
        lemma_with_count_push(insert_by_count(s.drop_last(), t), s.last(), c);
        assert(s.drop_last().push(s.last()) =~= s);
        lemma_with_count_push(s.drop_last(), s.last(), c);
    }
}

/// Inserting into a descending list keeps it descending.
proof fn lemma_insert_descending(s: Seq<Template>, t: Template)
    requires
        counts_descending(s),
    ensures
        counts_descending(insert_by_count(s, t)),
        insert_by_count(s, t).len() == s.len() + 1,
        forall|i: int|
            0 <= i < insert_by_count(s, t).len() ==> (#[trigger] insert_by_count(s, t)[i]).count
                >= t.count || insert_by_count(s, t)[i] == t || (exists|j: int|
                0 <= j < s.len() && s[j] == insert_by_count(s, t)[i]),
    decreases s.len(),
{
    if s.len() == 0 {
    } else if s.last().count >= t.count {
        let r = s.push(t);
        assert forall|i: int, j: int| 0 <= i < j < r.len() implies r[i].count >= r[j].count by {
            if j == s.len() {
                assert(s[i].count >= s.last().count);
            }
        }
        assert forall|i: int| 0 <= i < r.len() implies (#[trigger] r[i]).count >= t.count
            || r[i] == t || (exists|j: int| 0 <= j < s.len() && s[j] == r[i]) by {
            if i < s.len() {
                assert(s[i] == r[i]);
            }
        }
    } else {
        let d = s.drop_last();
        assert(counts_descending(d));
        lemma_insert_descending(d, t);
        let m = insert_by_count(d, t);
        let r = m.push(s.last());
        assert forall|i: int, j: int| 0 <= i < j < r.len() implies r[i].count >= r[j].count by {
            if j == m.len() {
                let x = m[i];
                if x == t {
                } else if x.count >= t.count {
                } else {
                    let k = choose|k: int| 0 <= k < d.len() && d[k] == x;
                    assert(s[k] == x);
                }
            }
        }
        assert forall|i: int| 0 <= i < r.len() implies (#[trigger] r[i]).count >= t.count
            || r[i] == t || (exists|j: int| 0 <= j < s.len() && s[j] == r[i]) by {
            if i == m.len() {
                assert(s[s.len() - 1] == r[i]);
            } else {
                assert(r[i] == m[i]);
                if !(m[i].count >= t.count || m[i] == t) {
                    let k = choose|k: int| 0 <= k < d.len() && d[k] == m[i];
                    assert(s[k] == m[i]);
                }
            }
        }
    }
}

/// The sort orders by decreasing count.
pub proof fn lemma_sorted_descending(s: Seq<Template>)
    ensures
        counts_descending(sorted_by_count(s)),
        sorted_by_count(s).len() == s.len(),
    decreases s.len(),
{
    if s.len() > 0 {
        lemma_sorted_descending(s.drop_last());
        lemma_insert_descending(sorted_by_count(s.drop_last()), s.last());
    }
}

/// The sort keeps, for every count, the templates with that count in their
/// original order.
pub proof fn lemma_sorted_keeps_runs(s: Seq<Template>, c: usize)
    ensures
        with_count(sorted_by_count(s), c) == with_count(s, c),
    decreases s.len(),
{
    if s.len() > 0 {
        lemma_sorted_keeps_runs(s.drop_last(), c);
        lemma_insert_with_count(sorted_by_count(s.drop_last()), s.last(), c);
    }
}

/// Law: sorting templates puts them in decreasing order of count and keeps,
/// for every count, the templates with that count in their original order
/// (a stable sort; in particular it only reorders them).
pub proof fn law_sort_templates_stable(s: Seq<Template>)
    ensures
        counts_descending(sorted_by_count(s)),
        sorted_by_count(s).len() == s.len(),
        forall|c: usize| #[trigger] with_count(sorted_by_count(s), c) == with_count(s, c),
{
    lemma_sorted_descending(s);
    assert forall|c: usize| #[trigger] with_count(sorted_by_count(s), c) == with_count(s, c) by {
        lemma_sorted_keeps_runs(s, c);
    }
}

/// Sorts templates by count, most common first; templates with equal counts
/// keep their order.
pub fn sort_templates_by_count(templates: &mut Vec<Template>)
    ensures
        final(templates)@ == sorted_by_count(old(templates)@),
{
    let mut input: Vec<Template> = Vec::new();
    std::mem::swap(&mut input, templates);
    let ghost all = input@;
    let mut out: Vec<Template> = Vec::new();
    let mut k: usize = 0;
    let n = input.len();
    while input.len() > 0
        invariant
            k + input.len() == n,
            n == all.len(),
            input@ == all.subrange(k as int, n as int),
            out@ == sorted_by_count(all.take(k as int)),
            counts_descending(out@),
        decreases input.len(),
    {
        proof {
            lemma_sorted_descending(all.take(k as int));
        }
        let t = input.remove(0);
        assert(t == all[k as int]);
        let mut p = out.len();
        while p > 0 && out[p - 1].count < t.count
            invariant
                p <= out.len(),
                forall|j: int| p <= j < out.len() ==> out@[j].count < t.count,
            decreases p,
        {
            p = p - 1;
        }
        proof {
            lemma_insert_at(out@, t, p as int);
            lemma_insert_descending(out@, t);
            assert(all.take(k + 1).drop_last() =~= all.take(k as int));
            assert(all.take(k + 1).last() == t);
        }
        out.insert(p, t);
        k = k + 1;
        assert(input@ =~= all.subrange(k as int, n as int));
    }
    assert(all.take(k as int) =~= all);
    *templates = out;
}

} // verus!
