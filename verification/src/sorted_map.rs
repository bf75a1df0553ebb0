//! Maps kept as vectors of `(key, value)` pairs in increasing key order: the
//! order and the entries of a `BTreeMap<String, _>`.

use vstd::prelude::*;

use crate::csv::same_chars;
use crate::text::chars_of;

verus! {

/// Strict lexicographic order of texts by code point (the order of `String`,
/// whose UTF-8 byte order it equals).
pub open spec fn lex_lt(a: Seq<char>, b: Seq<char>) -> bool
    decreases a.len(),
{
    if a.len() == 0 {
        b.len() > 0
    } else if b.len() == 0 {
        false
    } else if a[0] != b[0] {
        a[0] < b[0]
    } else {
        lex_lt(a.skip(1), b.skip(1))
    }
}

/// Keys in strictly increasing order.
pub open spec fn keys_sorted<T>(u: Seq<(String, T)>) -> bool {
    forall|i: int, j: int| 0 <= i < j < u.len() ==> lex_lt(u[i].0@, u[j].0@)
}

/// Number of entries whose key comes before `k`.
pub open spec fn rank<T>(u: Seq<(String, T)>, k: Seq<char>) -> int
    decreases u.len(),
{
    if u.len() == 0 {
        0
    } else {
        rank(u.drop_last(), k) + (if lex_lt(u.last().0@, k) {
            1int
        } else {
            0int
        })
    }
}

/// A sorted map with `k` set to `info` (an existing key keeps its key text and
/// gets the new info; a new key goes to its place in the order).
pub open spec fn sorted_put<T>(u: Seq<(String, T)>, k: String, info: T) -> Seq<(String, T)> {
    if exists|j: int| 0 <= j < u.len() && u[j].0@ == k@ {
        let j = choose|j: int| 0 <= j < u.len() && u[j].0@ == k@;
        u.update(j, (u[j].0, info))
    } else {
        u.insert(rank(u, k@), (k, info))
    }
}

pub proof fn lemma_lex_irreflexive(a: Seq<char>)
    ensures
        !lex_lt(a, a),
    decreases a.len(),
{
    if a.len() > 0 {
        lemma_lex_irreflexive(a.skip(1));
    }
}

pub proof fn lemma_lex_transitive(a: Seq<char>, b: Seq<char>, c: Seq<char>)
    requires
        lex_lt(a, b),
        lex_lt(b, c),
    ensures
        lex_lt(a, c),
    decreases a.len(),
{
    if a.len() > 0 && b.len() > 0 && c.len() > 0 && a[0] == b[0] && b[0] == c[0] {
        lemma_lex_transitive(a.skip(1), b.skip(1), c.skip(1));
    }
}

pub proof fn lemma_lex_total(a: Seq<char>, b: Seq<char>)
    requires
        a != b,
    ensures
        lex_lt(a, b) || lex_lt(b, a),
    decreases a.len(),
{
    if a.len() > 0 && b.len() > 0 && a[0] == b[0] {
        assert(a.skip(1) != b.skip(1)) by {
            if a.skip(1) == b.skip(1) {
                assert(a =~= seq![a[0]] + a.skip(1));
                assert(b =~= seq![b[0]] + b.skip(1));
            }
        }
        lemma_lex_total(a.skip(1), b.skip(1));
    } else if a.len() == 0 && b.len() == 0 {
        assert(a =~= b);
    }
}

proof fn lemma_rank_at<T>(u: Seq<(String, T)>, k: Seq<char>, p: int)
    requires
        0 <= p <= u.len(),
        forall|j: int| 0 <= j < p ==> lex_lt(#[trigger] u[j].0@, k),
        forall|j: int| p <= j < u.len() ==> !lex_lt(#[trigger] u[j].0@, k),
    ensures
        rank(u, k) == p,
    decreases u.len(),
{
    if u.len() > 0 {
        let d = u.drop_last();
        assert forall|j: int| 0 <= j < d.len() implies #[trigger] d[j].0@ == u[j].0@ by {
            assert(d[j] == u[j]);
        }
        if p == u.len() {
            lemma_rank_at(d, k, p - 1);
        } else {
            lemma_rank_at(d, k, p);
        }
    }
}

/// Whether `a` comes before `b` in code-point order.
pub fn lex_less(a: &[char], b: &[char]) -> (r: bool)
    ensures
        r == lex_lt(a@, b@),
{
    let mut i: usize = 0;
    assert(a@.skip(0) =~= a@);
    assert(b@.skip(0) =~= b@);
    while i < a.len() && i < b.len() && a[i] == b[i]
        invariant
            i <= a.len(),
            i <= b.len(),
            lex_lt(a@, b@) == lex_lt(a@.skip(i as int), b@.skip(i as int)),
        decreases a.len() - i,
    {
        assert(a@.skip(i as int).skip(1) =~= a@.skip(i + 1));
        assert(b@.skip(i as int).skip(1) =~= b@.skip(i + 1));
        i = i + 1;
    }
    if i == a.len() {
        i < b.len()
    } else if i == b.len() {
        false
    } else {
        a[i] < b[i]
    }
}

/// Sets `k` to `info` in a sorted map.
pub fn put_sorted<T>(u: &mut Vec<(String, T)>, k: String, info: T)
    requires
        keys_sorted(old(u)@),
    ensures
        final(u)@ == sorted_put(old(u)@, k, info),
        keys_sorted(final(u)@),
{
    let kc = chars_of(k.as_str());
    let mut j: usize = 0;
    while j < u.len() && lex_less(chars_of(u[j].0.as_str()).as_slice(), kc.as_slice())
        invariant
            j <= u.len(),
            kc@ == k@,
            forall|m: int| 0 <= m < j ==> lex_lt(#[trigger] u@[m].0@, k@),
        decreases u.len() - j,
    {
        j = j + 1;
    }
    let ghost u0 = u@;
    proof {
        assert forall|m: int| j <= m < u0.len() implies !lex_lt(#[trigger] u0[m].0@, k@) by {
            if lex_lt(u0[m].0@, k@) && m > j {
                lemma_lex_transitive(u0[j as int].0@, u0[m].0@, k@);
            }
        }
        assert forall|m: int| 0 <= m < u0.len() && m != j implies u0[m].0@ != k@ by {
            if m < j {
                lemma_lex_irreflexive(k@);
            } else {
                if u0[m].0@ == k@ {
                    if !(u0[j as int].0@ == k@) {
                        lemma_lex_total(u0[j as int].0@, k@);
                        lemma_lex_transitive(k@, u0[j as int].0@, u0[m].0@);
                        lemma_lex_irreflexive(k@);
                    }
                }
            }
        }
    }
    if j < u.len() && same_chars(chars_of(u[j].0.as_str()).as_slice(), kc.as_slice()) {
        let (key, _old) = u.remove(j);
        u.insert(j, (key, info));
        proof {
            assert(exists|m: int| 0 <= m < u0.len() && u0[m].0@ == k@);
            let c = choose|m: int| 0 <= m < u0.len() && u0[m].0@ == k@;
            assert(c == j);
            assert(u@ =~= u0.update(j as int, (u0[j as int].0, info)));
            assert forall|a: int, b: int| 0 <= a < b < u@.len() implies lex_lt(u@[a].0@, u@[b].0@) by {
                assert(u@[a].0@ == u0[a].0@);
                assert(u@[b].0@ == u0[b].0@);
            }
        }
    } else {
        proof {
            lemma_rank_at(u0, k@, j as int);
            assert(!exists|m: int| 0 <= m < u0.len() && u0[m].0@ == k@) by {
                if exists|m: int| 0 <= m < u0.len() && u0[m].0@ == k@ {
                    let m = choose|m: int| 0 <= m < u0.len() && u0[m].0@ == k@;
                    assert(m == j);
                }
            }
        }
        u.insert(j, (k, info));
        proof {
            assert(u@ =~= u0.insert(j as int, (k, info)));
            assert forall|a: int, b: int| 0 <= a < b < u@.len() implies lex_lt(u@[a].0@, u@[b].0@) by {
                if b < j {
                    assert(u@[a] == u0[a] && u@[b] == u0[b]);
                } else if b == j {
                    assert(u@[a] == u0[a]);
                } else if a == j {
                    assert(u@[b] == u0[b - 1]);
                    assert(!lex_lt(u0[b - 1].0@, k@));
                    assert(u0[b - 1].0@ != k@);
                    lemma_lex_total(u0[b - 1].0@, k@);
                } else if a < j {
                    assert(u@[a] == u0[a] && u@[b] == u0[b - 1]);
                } else {
                    assert(u@[a] == u0[a - 1] && u@[b] == u0[b - 1]);
                }
            }
        }
    }
}

// ---------------------------------------------------------------------------
// Maps of views
// ---------------------------------------------------------------------------

/// The entries of a map as models: key texts with the values' views.
pub open spec fn entries_view<T: View>(u: Seq<(String, T)>) -> Seq<(Seq<char>, T::V)> {
    u.map_values(|e: (String, T)| (e.0@, e.1@))
}

/// Index of the first entry at or after `i` whose key is `k` (`u.len()` when
/// there is none).
pub open spec fn find_key_from<V>(u: Seq<(Seq<char>, V)>, k: Seq<char>, i: int) -> int
    decreases u.len() - i,
{
    if i < 0 || i >= u.len() {
        u.len() as int
    } else if u[i].0 == k {
        i
    } else {
        find_key_from(u, k, i + 1)
    }
}

/// Index of the first entry whose key is `k` (`u.len()` when there is none).
pub open spec fn find_key<V>(u: Seq<(Seq<char>, V)>, k: Seq<char>) -> int {
    find_key_from(u, k, 0)
}

/// Index of the first entry at or after `i` whose key does not come before `k`.
pub open spec fn insert_pos_from<V>(u: Seq<(Seq<char>, V)>, k: Seq<char>, i: int) -> int
    decreases u.len() - i,
{
    if i < 0 || i >= u.len() {
        u.len() as int
    } else if !lex_lt(u[i].0, k) {
        i
    } else {
        insert_pos_from(u, k, i + 1)
    }
}

/// Where a new key `k` goes: before the first key that does not come before it.
pub open spec fn insert_pos<V>(u: Seq<(Seq<char>, V)>, k: Seq<char>) -> int {
    insert_pos_from(u, k, 0)
}

/// The value at key `k`.
pub open spec fn map_get<V>(u: Seq<(Seq<char>, V)>, k: Seq<char>) -> Option<V> {
    let j = find_key(u, k);
    if j < u.len() {
        Some(u[j].1)
    } else {
        None
    }
}

/// The map with key `k` set to `v` (`BTreeMap::insert`): an existing key gets
/// the new value in its place, a new key goes to its place in the order.
pub open spec fn map_put<V>(u: Seq<(Seq<char>, V)>, k: Seq<char>, v: V) -> Seq<(Seq<char>, V)> {
    let j = find_key(u, k);
    if j < u.len() {
        u.update(j, (k, v))
    } else {
        u.insert(insert_pos(u, k), (k, v))
    }
}

/// Keys in strictly increasing order.
pub open spec fn ascending<V>(u: Seq<(Seq<char>, V)>) -> bool {
    forall|i: int, j: int| 0 <= i < j < u.len() ==> lex_lt(u[i].0, u[j].0)
}

pub proof fn lemma_find_key_from<V>(u: Seq<(Seq<char>, V)>, k: Seq<char>, i: int)
    requires
        0 <= i <= u.len(),
    ensures
        i <= find_key_from(u, k, i) <= u.len(),
        find_key_from(u, k, i) < u.len() ==> u[find_key_from(u, k, i)].0 == k,
        forall|m: int| i <= m < find_key_from(u, k, i) ==> u[m].0 != k,
    decreases u.len() - i,
{
    if i < u.len() && u[i].0 != k {
        lemma_find_key_from(u, k, i + 1);
    }
}

pub proof fn lemma_insert_pos_from<V>(u: Seq<(Seq<char>, V)>, k: Seq<char>, i: int)
    requires
        0 <= i <= u.len(),
    ensures
        i <= insert_pos_from(u, k, i) <= u.len(),
        insert_pos_from(u, k, i) < u.len() ==> !lex_lt(u[insert_pos_from(u, k, i)].0, k),
        forall|m: int| i <= m < insert_pos_from(u, k, i) ==> lex_lt(u[m].0, k),
    decreases u.len() - i,
{
    if i < u.len() && lex_lt(u[i].0, k) {
        lemma_insert_pos_from(u, k, i + 1);
    }
}

/// Setting a key keeps the keys in increasing order.
pub proof fn lemma_put_ascending<V>(u: Seq<(Seq<char>, V)>, k: Seq<char>, v: V)
    requires
        ascending(u),
    ensures
        ascending(map_put(u, k, v)),
{
    lemma_find_key_from(u, k, 0);
    let j = find_key(u, k);
    if j >= u.len() {
        lemma_insert_pos_from(u, k, 0);
        let p = insert_pos(u, k);
        let r = u.insert(p, (k, v));
        assert forall|a: int, b: int| 0 <= a < b < r.len() implies lex_lt(r[a].0, r[b].0) by {
            if b < p {
                assert(r[a] == u[a] && r[b] == u[b]);
            } else if b == p {
                assert(r[a] == u[a]);
            } else if a == p {
                assert(r[b] == u[b - 1]);
                assert(u[p].0 != k);
                lemma_lex_total(u[p].0, k);
                if b - 1 > p {
                    lemma_lex_transitive(k, u[p].0, u[b - 1].0);
                }
            } else if a < p {
                assert(r[a] == u[a] && r[b] == u[b - 1]);
            } else {
                assert(r[a] == u[a - 1] && r[b] == u[b - 1]);
            }
        }
    } else {
        let r = u.update(j, (k, v));
        assert forall|a: int, b: int| 0 <= a < b < r.len() implies lex_lt(r[a].0, r[b].0) by {
            assert(r[a].0 == u[a].0);
            assert(r[b].0 == u[b].0);
        }
    }
}

/// Looks up the index of key `k` (`u.len()` when it is absent).
pub fn find_entry<T: View>(u: &Vec<(String, T)>, k: &String) -> (j: usize)
    ensures
        j as int == find_key(entries_view(u@), k@),
{
    let ghost e = entries_view(u@);
    let mut j: usize = 0;
    while j < u.len()
        invariant
            j <= u.len(),
            e == entries_view(u@),
            find_key(e, k@) == find_key_from(e, k@, j as int),
        decreases u.len() - j,
    {
        if u[j].0 == *k {
            return j;
        }
        j = j + 1;
    }
    j
}

/// Sets key `k` to `v` (`BTreeMap::insert`).
pub fn put_entry<T: View>(u: &mut Vec<(String, T)>, k: String, v: T)
    ensures
        entries_view(final(u)@) == map_put(entries_view(old(u)@), k@, v@),
{
    let ghost e = entries_view(u@);
    let j = find_entry(u, &k);
    if j < u.len() {
        let _ = u.remove(j);
        u.insert(j, (k, v));
        assert(entries_view(u@) =~= e.update(j as int, (k@, v@)));
    } else {
        let kc = chars_of(k.as_str());
        let mut p: usize = 0;
        while p < u.len() && lex_less(chars_of(u[p].0.as_str()).as_slice(), kc.as_slice())
            invariant
                p <= u.len(),
                kc@ == k@,
                e == entries_view(u@),
                insert_pos(e, k@) == insert_pos_from(e, k@, p as int),
            decreases u.len() - p,
        {
            p = p + 1;
        }
        u.insert(p, (k, v));
        assert(entries_view(u@) =~= e.insert(p as int, (k@, v@)));
    }
}

proof fn lemma_find_key_is<V>(u: Seq<(Seq<char>, V)>, k: Seq<char>, i: int, j: int)
    requires
        0 <= i <= j <= u.len(),
        forall|m: int| i <= m < j ==> u[m].0 != k,
        j < u.len() ==> u[j].0 == k,
    ensures
        find_key_from(u, k, i) == j,
    decreases j - i,
{
    if i < j {
        lemma_find_key_is(u, k, i + 1, j);
    }
}

/// Reading a key just set gives the value set.
pub proof fn lemma_get_put<V>(u: Seq<(Seq<char>, V)>, k: Seq<char>, v: V)
    ensures
        map_get(map_put(u, k, v), k) == Some(v),
{
    lemma_find_key_from(u, k, 0);
    let j = find_key(u, k);
    let r = map_put(u, k, v);
    if j < u.len() {
        lemma_find_key_is(r, k, 0, j);
    } else {
        lemma_insert_pos_from(u, k, 0);
        let p = insert_pos(u, k);
        assert forall|m: int| 0 <= m < p implies r[m].0 != k by {
            assert(r[m] == u[m]);
        }
        lemma_find_key_is(r, k, 0, p);
    }
}

} // verus!
