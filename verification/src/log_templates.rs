//! Log templates: each line's tokens become a pattern (static positions keep
//! their token, dynamic ones become placeholders), lines are grouped by
//! pattern, and each group keeps example tokens of its placeholders.

use vstd::prelude::*;

use crate::logs::{classifications_view, line_tokens};
use crate::pickle::{opt_text, strings_view};
use crate::text::{char_vecs, chars_of, string_of};

verus! {

/// One position of a line pattern.
pub enum PatternPart {
    /// A static position, with its token.
    Static(String),
    /// A dynamic position, shown as a placeholder for that position.
    Dynamic(usize),
    /// A position past every classified one.
    Unlisted(usize),
}

/// Model of a pattern position.
pub enum PartView {
    Static(Seq<char>),
    Dynamic(int),
    Unlisted(int),
}

/// Model of a pattern position.
pub open spec fn part_view(p: PatternPart) -> PartView {
    match p {
        PatternPart::Static(t) => PartView::Static(t@),
        PatternPart::Dynamic(i) => PartView::Dynamic(i as int),
        PatternPart::Unlisted(i) => PartView::Unlisted(i as int),
    }
}

/// Model of a pattern.
pub open spec fn parts_view(s: Seq<PatternPart>) -> Seq<PartView> {
    s.map_values(|p: PatternPart| part_view(p))
}

/// Classifications as their model gives them: position, static, token.
pub type ClassView = Seq<(int, bool, Option<Seq<char>>)>;

/// Position `p` of a line's pattern.
pub open spec fn spec_part(toks: Seq<Seq<char>>, cl: ClassView, p: int) -> PartView {
    if p < cl.len() {
        if cl[p].1 {
            PartView::Static(
                match cl[p].2 {
                    Some(t) => t,
                    None => toks[p],
                },
            )
        } else {
            PartView::Dynamic(p)
        }
    } else {
        PartView::Unlisted(p)
    }
}

/// The pattern of a line's tokens.
pub open spec fn spec_line_pattern(toks: Seq<Seq<char>>, cl: ClassView) -> Seq<PartView> {
    Seq::new(toks.len(), |p: int| spec_part(toks, cl, p))
}

/// Index of the first group whose pattern is `k` at or after `i` (`g.len()` when none).
pub open spec fn find_group(g: Seq<(Seq<PartView>, Seq<nat>)>, k: Seq<PartView>, i: int) -> int
    decreases g.len() - i,
{
    if i < 0 || i >= g.len() {
        g.len() as int
    } else if g[i].0 == k {
        i
    } else {
        find_group(g, k, i + 1)
    }
}

/// Line `r` added to the group of its pattern `k` (a new group goes last).
pub open spec fn add_line(g: Seq<(Seq<PartView>, Seq<nat>)>, k: Seq<PartView>, r: nat) -> Seq<(Seq<PartView>, Seq<nat>)> {
    let j = find_group(g, k, 0);
    if j < g.len() {
        g.update(j, (k, g[j].1.push(r)))
    } else {
        g.push((k, seq![r]))
    }
}

/// The first `n` lines grouped by pattern, groups in order of first line.
pub open spec fn line_groups(ts: Seq<Seq<Seq<char>>>, cl: ClassView, n: nat) -> Seq<(Seq<PartView>, Seq<nat>)>
    decreases n,
{
    if n == 0 {
        Seq::empty()
    } else {
        add_line(line_groups(ts, cl, (n - 1) as nat), spec_line_pattern(ts[n - 1], cl), (n - 1) as nat)
    }
}

/// The examples of one line added to the per-position example lists `st`:
/// from position `p` on, each dynamic position gets its token when new there;
/// once a list holds more than `max` examples the rest of the line is skipped.
pub open spec fn line_step(st: Seq<Seq<Seq<char>>>, toks: Seq<Seq<char>>, cl: ClassView, p: int, max: nat) -> Seq<Seq<Seq<char>>>
    decreases toks.len() - p,
{
    if p < 0 || p >= toks.len() {
        st
    } else if p < cl.len() && p < st.len() && !cl[p].1 {
        let e = if st[p].contains(toks[p]) {
            st[p]
        } else {
            st[p].push(toks[p])
        };
        let st2 = st.update(p, e);
        if e.len() > max {
            st2
        } else {
            line_step(st2, toks, cl, p + 1, max)
        }
    } else {
        line_step(st, toks, cl, p + 1, max)
    }
}

/// The example lists after the given lines, one list per classified position.
pub open spec fn example_lists(lines: Seq<Seq<Seq<char>>>, cl: ClassView, max: nat) -> Seq<Seq<Seq<char>>>
    decreases lines.len(),
{
    if lines.len() == 0 {
        Seq::new(cl.len(), |i: int| Seq::<Seq<char>>::empty())
    } else {
        line_step(example_lists(lines.drop_last(), cl, max), lines.last(), cl, 0, max)
    }
}

/// The non-empty example lists with their positions, by position.
pub open spec fn listed_examples(st: Seq<Seq<Seq<char>>>) -> Seq<(int, Seq<Seq<char>>)>
    decreases st.len(),
{
    if st.len() == 0 {
        Seq::empty()
    } else if st.last().len() > 0 {
        listed_examples(st.drop_last()).push(((st.len() - 1) as int, st.last()))
    } else {
        listed_examples(st.drop_last())
    }
}

/// The lines of a group that examples are taken from: its first `max_lines`.
pub open spec fn sample_lines(ts: Seq<Seq<Seq<char>>>, members: Seq<nat>, max_lines: nat) -> Seq<Seq<Seq<char>>> {
    let m = if members.len() <= max_lines {
        members
    } else {
        members.take(max_lines as int)
    };
    m.map_values(|i: nat| ts[i as int])
}

/// A log template.
pub struct LogTemplate {
    /// The pattern of the template's lines.
    pub pattern: Vec<PatternPart>,
    /// Lines with this pattern.
    pub count: usize,
    /// Example tokens per dynamic position, by position.
    pub examples: Vec<(usize, Vec<String>)>,
}

/// Model of example lists.
pub open spec fn examples_view(e: Seq<(usize, Vec<String>)>) -> Seq<(int, Seq<Seq<char>>)> {
    e.map_values(|x: (usize, Vec<String>)| (x.0 as int, strings_view(x.1@)))
}

/// A template matches group `g` of the lines.
pub open spec fn template_holds(
    t: LogTemplate,
    ts: Seq<Seq<Seq<char>>>,
    cl: ClassView,
    g: (Seq<PartView>, Seq<nat>),
    max_lines: nat,
    max_examples: nat,
) -> bool {
    &&& parts_view(t.pattern@) == g.0
    &&& t.count == g.1.len()
    &&& examples_view(t.examples@) == listed_examples(example_lists(sample_lines(ts, g.1, max_lines), cl, max_examples))
}

/// The pattern of one line's tokens.
fn line_pattern(toks: &Vec<Vec<char>>, classes: &[(usize, bool, Option<String>)]) -> (r: Vec<PatternPart>)
    ensures
        parts_view(r@) == spec_line_pattern(char_vecs(toks@), classifications_view(classes@)),
{
    let ghost cl = classifications_view(classes@);
    let ghost tv = char_vecs(toks@);
    let mut r: Vec<PatternPart> = Vec::new();
    let mut p: usize = 0;
    while p < toks.len()
        invariant
            p <= toks.len(),
            cl == classifications_view(classes@),
            tv == char_vecs(toks@),
            parts_view(r@) == spec_line_pattern(tv, cl).take(p as int),
        decreases toks.len() - p,
    {
        let part = if p < classes.len() {
            if classes[p].1 {
                match &classes[p].2 {
                    Some(t) => PatternPart::Static(t.clone()),
                    None => PatternPart::Static(string_of(toks[p].as_slice())),
                }
            } else {
                PatternPart::Dynamic(p)
            }
        } else {
            PatternPart::Unlisted(p)
        };
        assert(part_view(part) == spec_part(tv, cl, p as int));
        let ghost prev = r@;
        r.push(part);
        assert(parts_view(r@) =~= parts_view(prev).push(part_view(part)));
        assert(spec_line_pattern(tv, cl).take(p + 1) =~= spec_line_pattern(tv, cl).take(p as int).push(
            spec_part(tv, cl, p as int),
        ));
        p = p + 1;
    }
    assert(spec_line_pattern(tv, cl).take(p as int) =~= spec_line_pattern(tv, cl));
    r
}

/// Whether two pattern positions are the same.
fn same_part(a: &PatternPart, b: &PatternPart) -> (r: bool)
    ensures
        r == (part_view(*a) == part_view(*b)),
{
    match (a, b) {
        (PatternPart::Static(x), PatternPart::Static(y)) => {
            let xc = chars_of(x.as_str());
            let yc = chars_of(y.as_str());
            crate::csv::same_chars(xc.as_slice(), yc.as_slice())
        },
        (PatternPart::Dynamic(i), PatternPart::Dynamic(j)) => *i == *j,
        (PatternPart::Unlisted(i), PatternPart::Unlisted(j)) => *i == *j,
        _ => false,
    }
}

/// Whether two patterns are the same.
fn same_pattern(a: &Vec<PatternPart>, b: &Vec<PatternPart>) -> (r: bool)
    ensures
        r == (parts_view(a@) == parts_view(b@)),
{
    if a.len() != b.len() {
        assert(parts_view(a@).len() != parts_view(b@).len());
        return false;
    }
    let mut i: usize = 0;
    while i < a.len()
        invariant
            a.len() == b.len(),
            i <= a.len(),
            forall|j: int| 0 <= j < i ==> part_view(#[trigger] a@[j]) == part_view(b@[j]),
        decreases a.len() - i,
    {
        if !same_part(&a[i as usize], &b[i as usize]) {
            assert(parts_view(a@)[i as int] != parts_view(b@)[i as int]);
            return false;
        }
        i = i + 1;
    }
    assert(parts_view(a@) =~= parts_view(b@));
    true
}

/// Model of groups under construction.
pub open spec fn groups_view(g: Seq<(Vec<PatternPart>, Vec<usize>)>) -> Seq<(Seq<PartView>, Seq<nat>)> {
    g.map_values(|e: (Vec<PatternPart>, Vec<usize>)| (parts_view(e.0@), e.1@.map_values(|x: usize| x as nat)))
}

proof fn lemma_find_group(g: Seq<(Seq<PartView>, Seq<nat>)>, k: Seq<PartView>, i: int, j: int)
    requires
        0 <= i <= j <= g.len(),
        forall|m: int| i <= m < j ==> g[m].0 != k,
        j == g.len() || g[j].0 == k,
    ensures
        find_group(g, k, i) == j,
    decreases j - i,
{
    if i < j {
        lemma_find_group(g, k, i + 1, j);
    }
}

/// Groups of patterns are distinct.
pub open spec fn distinct_groups(g: Seq<(Seq<PartView>, Seq<nat>)>) -> bool {
    forall|a: int, b: int| 0 <= a < b < g.len() ==> #[trigger] g[a].0 != #[trigger] g[b].0
}

/// Lines over all groups.
pub open spec fn lines_total(g: Seq<(Seq<PartView>, Seq<nat>)>) -> nat
    decreases g.len(),
{
    if g.len() == 0 {
        0
    } else {
        lines_total(g.drop_last()) + g.last().1.len()
    }
}

/// Every member of every group is below `n`.
pub open spec fn members_below(g: Seq<(Seq<PartView>, Seq<nat>)>, n: nat) -> bool {
    forall|a: int, q: int| 0 <= a < g.len() && 0 <= q < g[a].1.len() ==> (#[trigger] g[a].1[q]) < n
}

proof fn lemma_lines_total_update(g: Seq<(Seq<PartView>, Seq<nat>)>, j: int, x: (Seq<PartView>, Seq<nat>))
    requires
        0 <= j < g.len(),
    ensures
        lines_total(g.update(j, x)) == lines_total(g) - g[j].1.len() + x.1.len(),
    decreases g.len(),
{
    let u = g.update(j, x);
    if j == g.len() - 1 {
        assert(u.drop_last() =~= g.drop_last());
    } else {
        assert(u.drop_last() =~= g.drop_last().update(j, x));
        lemma_lines_total_update(g.drop_last(), j, x);
    }
}

proof fn lemma_add_line(g: Seq<(Seq<PartView>, Seq<nat>)>, k: Seq<PartView>, r: nat)
    requires
        distinct_groups(g),
        members_below(g, r),
    ensures
        lines_total(add_line(g, k, r)) == lines_total(g) + 1,
        distinct_groups(add_line(g, k, r)),
        members_below(add_line(g, k, r), r + 1),
{
    let h = add_line(g, k, r);
    let j = find_group(g, k, 0);
    lemma_find_group_bounds(g, k, 0);
    if j < g.len() {
        lemma_lines_total_update(g, j, (k, g[j].1.push(r)));
        assert forall|a: int, b: int| 0 <= a < b < h.len() implies #[trigger] h[a].0 != #[trigger] h[b].0 by {
            assert(h[a].0 == g[a].0 && h[b].0 == g[b].0);
        }
        assert forall|a: int, q: int| 0 <= a < h.len() && 0 <= q < h[a].1.len() implies (#[trigger] h[a].1[q]) < r + 1 by {
            if a == j && q == g[j].1.len() {
            } else {
                assert(h[a].1[q] == g[a].1[q]);
            }
        }
    } else {
        assert(g.push((k, seq![r])).drop_last() =~= g);
        assert forall|a: int, b: int| 0 <= a < b < h.len() implies #[trigger] h[a].0 != #[trigger] h[b].0 by {
            if b < g.len() {
                assert(h[a] == g[a] && h[b] == g[b]);
            } else {
                assert(h[a] == g[a]);
                lemma_find_group_none(g, k, 0, a);
            }
        }
        assert forall|a: int, q: int| 0 <= a < h.len() && 0 <= q < h[a].1.len() implies (#[trigger] h[a].1[q]) < r + 1 by {
            if a < g.len() {
                assert(h[a] == g[a]);
            }
        }
    }
}

proof fn lemma_find_group_bounds(g: Seq<(Seq<PartView>, Seq<nat>)>, k: Seq<PartView>, i: int)
    requires
        0 <= i <= g.len(),
    ensures
        i <= find_group(g, k, i) <= g.len(),
        find_group(g, k, i) < g.len() ==> g[find_group(g, k, i)].0 == k,
    decreases g.len() - i,
{
    if i < g.len() {
        lemma_find_group_bounds(g, k, i + 1);
    }
}

proof fn lemma_find_group_none(g: Seq<(Seq<PartView>, Seq<nat>)>, k: Seq<PartView>, i: int, a: int)
    requires
        0 <= i <= a < g.len(),
        find_group(g, k, i) == g.len(),
    ensures
        g[a].0 != k,
    decreases a - i,
{
    if i < a {
        lemma_find_group_none(g, k, i + 1, a);
    }
}

/// Law: grouping log lines by pattern gives distinct patterns whose line
/// counts add up to the number of lines grouped, each line in one group.
pub proof fn law_log_groups_partition_lines(ts: Seq<Seq<Seq<char>>>, cl: ClassView, n: nat)
    ensures
        lines_total(line_groups(ts, cl, n)) == n,
        distinct_groups(line_groups(ts, cl, n)),
        members_below(line_groups(ts, cl, n), n),
    decreases n,
{
    if n > 0 {
        law_log_groups_partition_lines(ts, cl, (n - 1) as nat);
        lemma_add_line(line_groups(ts, cl, (n - 1) as nat), spec_line_pattern(ts[n - 1], cl), (n - 1) as nat);
    }
}

/// Groups the lines by pattern, with each group's line numbers.
fn group_lines(toks: &Vec<Vec<Vec<char>>>, classes: &[(usize, bool, Option<String>)]) -> (g: Vec<(Vec<PatternPart>, Vec<usize>)>)
    ensures
        groups_view(g@) == line_groups(
            toks@.map_values(|l: Vec<Vec<char>>| char_vecs(l@)),
            classifications_view(classes@),
            toks.len() as nat,
        ),
{
    let ghost ts = toks@.map_values(|l: Vec<Vec<char>>| char_vecs(l@));
    let ghost cl = classifications_view(classes@);
    let mut g: Vec<(Vec<PatternPart>, Vec<usize>)> = Vec::new();
    let mut i: usize = 0;
    while i < toks.len()
        invariant
            i <= toks.len(),
            ts == toks@.map_values(|l: Vec<Vec<char>>| char_vecs(l@)),
            cl == classifications_view(classes@),
            groups_view(g@) == line_groups(ts, cl, i as nat),
        decreases toks.len() - i,
    {
        let pat = line_pattern(&toks[i], classes);
        let ghost k = parts_view(pat@);
        assert(k == spec_line_pattern(ts[i as int], cl));
        let ghost gv = groups_view(g@);
        let mut j: usize = 0;
        while j < g.len() && !same_pattern(&g[j].0, &pat)
            invariant
                j <= g.len(),
                gv == groups_view(g@),
                k == parts_view(pat@),
                forall|m: int| 0 <= m < j ==> (#[trigger] gv[m]).0 != k,
            decreases g.len() - j,
        {
            j = j + 1;
        }
        proof {
            lemma_find_group(gv, k, 0, j as int);
        }
        if j < g.len() {
            g[j].1.push(i);
            assert(g@[j as int].1@.map_values(|x: usize| x as nat) =~= gv[j as int].1.push(i as nat));
            assert(groups_view(g@) =~= gv.update(j as int, (k, gv[j as int].1.push(i as nat))));
        } else {
            let mut members: Vec<usize> = Vec::new();
            members.push(i);
            g.push((pat, members));
            assert(g@.last().1@.map_values(|x: usize| x as nat) =~= seq![i as nat]);
            assert(groups_view(g@) =~= gv.push((k, seq![i as nat])));
        }
        i = i + 1;
    }
    g
}

/// Model of example lists under construction.
pub open spec fn lists_view(st: Seq<Vec<Vec<char>>>) -> Seq<Seq<Seq<char>>> {
    st.map_values(|e: Vec<Vec<char>>| char_vecs(e@))
}

/// Whether a token is in an example list.
fn holds_token(list: &Vec<Vec<char>>, t: &Vec<char>) -> (r: bool)
    ensures
        r == char_vecs(list@).contains(t@),
{
    let ghost lv = char_vecs(list@);
    let mut i: usize = 0;
    while i < list.len()
        invariant
            i <= list.len(),
            lv == char_vecs(list@),
            forall|j: int| 0 <= j < i ==> lv[j] != t@,
        decreases list.len() - i,
    {
        if crate::csv::same_chars(list[i].as_slice(), t.as_slice()) {
            assert(lv[i as int] == t@);
            return true;
        }
        i = i + 1;
    }
    false
}

/// Adds the examples of one line (see `line_step`).
fn add_line_examples(st: &mut Vec<Vec<Vec<char>>>, toks: &Vec<Vec<char>>, classes: &[(usize, bool, Option<String>)], max: usize)
    ensures
        lists_view(final(st)@) == line_step(
            lists_view(old(st)@),
            char_vecs(toks@),
            classifications_view(classes@),
            0,
            max as nat,
        ),
{
    let ghost cl = classifications_view(classes@);
    let ghost tv = char_vecs(toks@);
    let ghost target = line_step(lists_view(st@), tv, cl, 0, max as nat);
    let mut p: usize = 0;
    loop
        invariant_except_break
            p <= toks.len(),
            cl == classifications_view(classes@),
            tv == char_vecs(toks@),
            line_step(lists_view(st@), tv, cl, p as int, max as nat) == target,
        ensures
            lists_view(st@) == target,
        decreases toks.len() - p,
    {
        if p >= toks.len() {
            break;
        }
        if p < classes.len() && p < st.len() && !classes[p].1 {
            let ghost sv = lists_view(st@);
            let known = holds_token(&st[p], &toks[p]);
            if !known {
                let t = toks[p].clone();
                st[p].push(t);
                assert(char_vecs(st@[p as int]@) =~= sv[p as int].push(tv[p as int]));
            }
            assert(lists_view(st@) =~= sv.update(
                p as int,
                if sv[p as int].contains(tv[p as int]) {
                    sv[p as int]
                } else {
                    sv[p as int].push(tv[p as int])
                },
            ));
            if st[p].len() > max {
                break;
            }
        }
        p = p + 1;
    }
}

/// The example lists of a group's sample lines, listed by position.
fn group_examples(
    toks: &Vec<Vec<Vec<char>>>,
    members: &Vec<usize>,
    classes: &[(usize, bool, Option<String>)],
    max_lines: usize,
    max_examples: usize,
) -> (r: Vec<(usize, Vec<String>)>)
    requires
        forall|q: int| 0 <= q < members.len() ==> (#[trigger] members@[q]) < toks.len(),
    ensures
        examples_view(r@) == listed_examples(
            example_lists(
                sample_lines(
                    toks@.map_values(|l: Vec<Vec<char>>| char_vecs(l@)),
                    members@.map_values(|x: usize| x as nat),
                    max_lines as nat,
                ),
                classifications_view(classes@),
                max_examples as nat,
            ),
        ),
{
    let ghost ts = toks@.map_values(|l: Vec<Vec<char>>| char_vecs(l@));
    let ghost mv = members@.map_values(|x: usize| x as nat);
    let ghost cl = classifications_view(classes@);
    let ghost sample = sample_lines(ts, mv, max_lines as nat);
    let m: usize = if members.len() <= max_lines {
        members.len()
    } else {
        max_lines
    };
    assert(sample.len() == m);
    let mut st: Vec<Vec<Vec<char>>> = Vec::new();
    let mut c: usize = 0;
    while c < classes.len()
        invariant
            c <= classes.len(),
            st.len() == c,
            forall|j: int| 0 <= j < c ==> (#[trigger] st@[j])@.len() == 0,
        decreases classes.len() - c,
    {
        st.push(Vec::new());
        c = c + 1;
    }
    proof {
        assert(sample.take(0) =~= Seq::<Seq<Seq<char>>>::empty());
        assert forall|j: int| 0 <= j < st.len() implies lists_view(st@)[j] =~= Seq::<Seq<char>>::empty() by {
            assert(st@[j]@.len() == 0);
        }
        assert(lists_view(st@) =~= example_lists(sample.take(0), cl, max_examples as nat));
    }
    let mut q: usize = 0;
    while q < m
        invariant
            q <= m <= members.len(),
            m == sample.len(),
            ts == toks@.map_values(|l: Vec<Vec<char>>| char_vecs(l@)),
            mv == members@.map_values(|x: usize| x as nat),
            cl == classifications_view(classes@),
            sample == sample_lines(ts, mv, max_lines as nat),
            forall|z: int| 0 <= z < members.len() ==> (#[trigger] members@[z]) < toks.len(),
            lists_view(st@) == example_lists(sample.take(q as int), cl, max_examples as nat),
        decreases m - q,
    {
        let line = members[q];
        assert(sample.take(q + 1).drop_last() =~= sample.take(q as int));
        assert(sample.take(q + 1).last() == ts[line as int]);
        add_line_examples(&mut st, &toks[line], classes, max_examples);
        q = q + 1;
    }
    assert(sample.take(q as int) =~= sample);
    let ghost lv = lists_view(st@);
    let mut r: Vec<(usize, Vec<String>)> = Vec::new();
    let mut p: usize = 0;
    while p < st.len()
        invariant
            p <= st.len(),
            lv == lists_view(st@),
            examples_view(r@) == listed_examples(lv.take(p as int)),
        decreases st.len() - p,
    {
        assert(lv.take(p + 1).drop_last() =~= lv.take(p as int));
        assert(lv.take(p + 1).last() == lv[p as int]);
        if st[p].len() > 0 {
            let mut words: Vec<String> = Vec::new();
            let mut w: usize = 0;
            while w < st[p].len()
                invariant
                    w <= st@[p as int].len(),
                    p < st.len(),
                    strings_view(words@) == char_vecs(st@[p as int]@).take(w as int),
                decreases st@[p as int].len() - w,
            {
                let text = string_of(st[p][w].as_slice());
                let ghost prev = words@;
                words.push(text);
                assert(strings_view(words@) =~= strings_view(prev).push(text@));
                assert(char_vecs(st@[p as int]@).take(w + 1) =~= char_vecs(st@[p as int]@).take(w as int).push(
                    st@[p as int]@[w as int]@,
                ));
                w = w + 1;
            }
            assert(char_vecs(st@[p as int]@).take(w as int) =~= lv[p as int]);
            let ghost prev = r@;
            r.push((p, words));
            assert(examples_view(r@) =~= examples_view(prev).push((p as int, lv[p as int])));
        }
        p = p + 1;
    }
    assert(lv.take(p as int) =~= lv);
    r
}

/// Groups a log's lines into templates by the classification of token
/// positions (see `classify_log_positions`): one template per distinct line
/// pattern, in order of first line, with its line count and the example
/// tokens of its dynamic positions from its first `max_sample_lines` lines.
pub fn group_log_lines(
    content: &str,
    classes: &[(usize, bool, Option<String>)],
    max_sample_lines: usize,
    max_examples: usize,
) -> (r: Vec<LogTemplate>)
    ensures
        ({
            let ts = line_tokens(content@);
            let g = line_groups(ts, classifications_view(classes@), ts.len());
            &&& r.len() == g.len()
            &&& forall|k: int|
                0 <= k < r.len() ==> template_holds(
                    #[trigger] r@[k],
                    ts,
                    classifications_view(classes@),
                    g[k],
                    max_sample_lines as nat,
                    max_examples as nat,
                )
        }),
{
    let toks = crate::logs::tokenize_lines(content);
    let ghost ts = line_tokens(content@);
    let ghost cl = classifications_view(classes@);
    let groups = group_lines(&toks, classes);
    let ghost gv = groups_view(groups@);
    proof {
        law_log_groups_partition_lines(ts, cl, ts.len());
    }
    let mut r: Vec<LogTemplate> = Vec::new();
    let mut k: usize = 0;
    while k < groups.len()
        invariant
            k <= groups.len(),
            ts == line_tokens(content@),
            ts == toks@.map_values(|l: Vec<Vec<char>>| char_vecs(l@)),
            cl == classifications_view(classes@),
            gv == groups_view(groups@),
            gv == line_groups(ts, cl, ts.len()),
            members_below(gv, ts.len()),
            r.len() == k,
            forall|z: int|
                0 <= z < k ==> template_holds(
                    #[trigger] r@[z],
                    ts,
                    cl,
                    gv[z],
                    max_sample_lines as nat,
                    max_examples as nat,
                ),
        decreases groups.len() - k,
    {
        let members = &groups[k].1;
        assert forall|q: int| 0 <= q < members.len() implies (#[trigger] members@[q]) < toks.len() by {
            assert(gv[k as int].1[q] == members@[q] as nat);
        }
        assert(gv[k as int].1 == members@.map_values(|x: usize| x as nat));
        let examples = group_examples(&toks, members, classes, max_sample_lines, max_examples);
        let mut pattern: Vec<PatternPart> = Vec::new();
        let mut c: usize = 0;
        while c < groups[k].0.len()
            invariant
                k < groups.len(),
                c <= groups@[k as int].0.len(),
                parts_view(pattern@) == parts_view(groups@[k as int].0@).take(c as int),
            decreases groups@[k as int].0.len() - c,
        {
            let part = match &groups[k].0[c] {
                PatternPart::Static(t) => PatternPart::Static(t.clone()),
                PatternPart::Dynamic(i) => PatternPart::Dynamic(*i),
                PatternPart::Unlisted(i) => PatternPart::Unlisted(*i),
            };
            let ghost prev = pattern@;
            pattern.push(part);
            assert(parts_view(pattern@) =~= parts_view(prev).push(part_view(part)));
            assert(parts_view(groups@[k as int].0@).take(c + 1) =~= parts_view(groups@[k as int].0@).take(c as int).push(
                part_view(groups@[k as int].0@[c as int]),
            ));
            c = c + 1;
        }
        assert(parts_view(groups@[k as int].0@).take(c as int) =~= gv[k as int].0);
        let t = LogTemplate { pattern, count: groups[k].1.len(), examples };
        r.push(t);
        k = k + 1;
    }
    r
}

} // verus!
