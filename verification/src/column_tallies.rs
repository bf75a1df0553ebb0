//! Integer column statistics of sampled table rows: null cells, the first
//! distinct values up to a cap, and true/false counts of boolean columns.

use vstd::prelude::*;

use crate::archive::{eq_ascii_nocase, same_ignoring_ascii_case};
use crate::csv::{lowercase, same_chars, to_lowercase};
use crate::pickle::strings_view;
use crate::text::chars_of;
use vstd::hash_map::StringHashMap;

verus! {

/// The cells of each row.
pub open spec fn table_view(rows: Seq<Vec<String>>) -> Seq<Seq<Seq<char>>> {
    rows.map_values(|r: Vec<String>| strings_view(r@))
}

/// Cell `g` of a row; a short row reads as empty there.
pub open spec fn cell(row: Seq<Seq<char>>, g: int) -> Seq<char> {
    if 0 <= g < row.len() {
        row[g]
    } else {
        Seq::empty()
    }
}

/// An empty cell, or `null` or `nil` in any ASCII case.
pub open spec fn null_like(v: Seq<char>) -> bool {
    v.len() == 0 || eq_ascii_nocase(v, "null"@) || eq_ascii_nocase(v, "nil"@)
}

/// A boolean cell that reads as true: `true`, `yes`, `1` or `y` once lower-cased.
pub open spec fn reads_true(v: Seq<char>) -> bool {
    let l = lowercase(v);
    l == "true"@ || l == "yes"@ || l == "1"@ || l == "y"@
}

/// Null-like cells of column `g`.
pub open spec fn null_count(rs: Seq<Seq<Seq<char>>>, g: int) -> nat
    decreases rs.len(),
{
    if rs.len() == 0 {
        0
    } else {
        null_count(rs.drop_last(), g) + (if null_like(cell(rs.last(), g)) { 1nat } else { 0nat })
    }
}

/// The distinct non-null values of column `g` in order of first occurrence,
/// the first `max` of them.
pub open spec fn distinct_values(rs: Seq<Seq<Seq<char>>>, g: int, max: nat) -> Seq<Seq<char>>
    decreases rs.len(),
{
    if rs.len() == 0 {
        Seq::empty()
    } else {
        let d = distinct_values(rs.drop_last(), g, max);
        let v = cell(rs.last(), g);
        if null_like(v) || d.contains(v) || d.len() >= max {
            d
        } else {
            d.push(v)
        }
    }
}

/// Non-null cells of column `g` that read as true.
pub open spec fn true_count(rs: Seq<Seq<Seq<char>>>, g: int) -> nat
    decreases rs.len(),
{
    if rs.len() == 0 {
        0
    } else {
        let v = cell(rs.last(), g);
        true_count(rs.drop_last(), g) + (if !null_like(v) && reads_true(v) { 1nat } else { 0nat })
    }
}

/// Rows that statistics look at: the first `max_rows`.
pub open spec fn used_rows(rs: Seq<Seq<Seq<char>>>, max_rows: nat) -> Seq<Seq<Seq<char>>> {
    if rs.len() <= max_rows {
        rs
    } else {
        rs.take(max_rows as int)
    }
}

/// Statistics of one column over the rows looked at.
pub struct ColumnTally {
    /// Null-like cells.
    pub nulls: usize,
    /// Distinct non-null values in order of first occurrence, capped.
    pub distinct: Vec<String>,
    /// Non-null cells of a boolean column (zero for other columns).
    pub boolean_non_null: usize,
    /// Cells of a boolean column that read as true (zero for other columns).
    pub boolean_true: usize,
}

/// Statistics of a run of columns.
pub struct ChunkTallies {
    /// Rows looked at.
    pub rows_used: usize,
    /// One entry per column of the run, in column order.
    pub columns: Vec<ColumnTally>,
}

/// A column tally matches the model for column `g`.
pub open spec fn tally_holds(
    t: ColumnTally,
    types: Seq<Seq<char>>,
    rs: Seq<Seq<Seq<char>>>,
    g: int,
    max_distinct: nat,
) -> bool {
    let boolean = types[g] == "boolean"@;
    &&& t.nulls == null_count(rs, g)
    &&& strings_view(t.distinct@) == distinct_values(rs, g, max_distinct)
    &&& t.boolean_non_null == (if boolean { rs.len() - null_count(rs, g) } else { 0 })
    &&& t.boolean_true == (if boolean { true_count(rs, g) } else { 0 })
}

proof fn lemma_counts_bounded(rs: Seq<Seq<Seq<char>>>, g: int)
    ensures
        null_count(rs, g) <= rs.len(),
        true_count(rs, g) + null_count(rs, g) <= rs.len(),
    decreases rs.len(),
{
    if rs.len() > 0 {
        lemma_counts_bounded(rs.drop_last(), g);
    }
}

proof fn lemma_distinct_bounded(rs: Seq<Seq<Seq<char>>>, g: int, max: nat)
    ensures
        distinct_values(rs, g, max).len() <= max,
        distinct_values(rs, g, max).len() <= rs.len(),
        distinct_values(rs, g, max).no_duplicates(),
    decreases rs.len(),
{
    if rs.len() > 0 {
        lemma_distinct_bounded(rs.drop_last(), g, max);
    }
}

/// Whether a cell is null-like.
fn null_like_cell(v: &[char]) -> (r: bool)
    ensures
        r == null_like(v@),
{
    let n = chars_of("null");
    let l = chars_of("nil");
    v.len() == 0 || same_ignoring_ascii_case(v, n.as_slice()) || same_ignoring_ascii_case(v, l.as_slice())
}

/// Whether a cell reads as true.
fn reads_true_cell(v: &str) -> (r: bool)
    ensures
        r == reads_true(v@),
{
    let low = to_lowercase(v);
    let l = chars_of(low.as_str());
    let t = chars_of("true");
    let y = chars_of("yes");
    let one = chars_of("1");
    let short = chars_of("y");
    same_chars(l.as_slice(), t.as_slice()) || same_chars(l.as_slice(), y.as_slice()) || same_chars(
        l.as_slice(),
        one.as_slice(),
    ) || same_chars(l.as_slice(), short.as_slice())
}

/// Statistics of column `g` over the first `used` rows.
fn tally_column(types: &[String], rows: &[Vec<String>], used: usize, g: usize, max_distinct: usize) -> (r:
    ColumnTally)
    requires
        used <= rows.len(),
        g < types.len(),
    ensures
        tally_holds(r, strings_view(types@), table_view(rows@).take(used as int), g as int, max_distinct as nat),
{
    let ghost rs = table_view(rows@).take(used as int);
    let tname = chars_of(types[g].as_str());
    let bname = chars_of("boolean");
    let boolean = same_chars(tname.as_slice(), bname.as_slice());
    let mut nulls: usize = 0;
    let mut trues: usize = 0;
    let mut distinct: Vec<String> = Vec::new();
    let mut seen: StringHashMap<usize> = StringHashMap::new();
    let mut i: usize = 0;
    while i < used
        invariant
            i <= used <= rows.len(),
            rs == table_view(rows@).take(used as int),
            nulls == null_count(rs.take(i as int), g as int),
            trues == true_count(rs.take(i as int), g as int),
            strings_view(distinct@) == distinct_values(rs.take(i as int), g as int, max_distinct as nat),
            seen@.dom() == strings_view(distinct@).to_set(),
        decreases used - i,
    {
        let ghost cur = rs.take(i as int);
        assert(rs.take(i + 1).drop_last() =~= cur);
        assert(rs.take(i + 1).last() == strings_view(rows@[i as int]@));
        proof {
            lemma_counts_bounded(cur, g as int);
        }
        let row = &rows[i];
        if g >= row.len() {
            assert(cell(rs.take(i + 1).last(), g as int) =~= Seq::<char>::empty());
            nulls = nulls + 1;
        } else {
            let v = row[g].as_str();
            assert(cell(rs.take(i + 1).last(), g as int) == v@);
            let vc = chars_of(v);
            if null_like_cell(vc.as_slice()) {
                nulls = nulls + 1;
            } else {
                let ghost dv = strings_view(distinct@);
                let known = seen.contains_key(v);
                if !known && distinct.len() < max_distinct {
                    let key = v.to_owned();
                    let kept = v.to_owned();
                    seen.insert(key, i);
                    distinct.push(kept);
                    proof {
                        assert(strings_view(distinct@) =~= dv.push(v@));
                        dv.lemma_push_to_set_commute(v@);
                    }
                }
                if reads_true_cell(v) {
                    trues = trues + 1;
                }
            }
        }
        i = i + 1;
    }
    assert(rs.take(i as int) =~= rs);
    proof {
        lemma_counts_bounded(rs, g as int);
    }
    ColumnTally {
        nulls,
        distinct,
        boolean_non_null: if boolean { used - nulls } else { 0 },
        boolean_true: if boolean { trues } else { 0 },
    }
}

/// Statistics of the columns `col_start..col_end` over the first
/// `max_stats_rows` rows. `None` when the run is empty, reaches past the
/// column types, or no row is looked at.
pub fn accumulate_column_tallies(
    column_types: &[String],
    col_start: usize,
    col_end: usize,
    max_stats_rows: usize,
    max_distinct: usize,
    rows: &[Vec<String>],
) -> (r: Option<ChunkTallies>)
    ensures
        r is None <==> (col_end <= col_start || col_end > column_types.len() || rows.len() == 0
            || max_stats_rows == 0),
        r matches Some(c) ==> ({
            let rs = used_rows(table_view(rows@), max_stats_rows as nat);
            &&& c.rows_used == rs.len()
            &&& c.columns.len() == col_end - col_start
            &&& forall|k: int|
                0 <= k < c.columns.len() ==> tally_holds(
                    #[trigger] c.columns@[k],
                    strings_view(column_types@),
                    rs,
                    col_start + k,
                    max_distinct as nat,
                )
        }),
{
    if col_end <= col_start || col_end > column_types.len() {
        return None;
    }
    let used = if rows.len() <= max_stats_rows {
        rows.len()
    } else {
        max_stats_rows
    };
    if used == 0 {
        return None;
    }
    let ghost rs = used_rows(table_view(rows@), max_stats_rows as nat);
    assert(rs =~= table_view(rows@).take(used as int));
    let mut columns: Vec<ColumnTally> = Vec::new();
    let mut g: usize = col_start;
    while g < col_end
        invariant
            col_start <= g <= col_end <= column_types.len(),
            used <= rows.len(),
            rs == table_view(rows@).take(used as int),
            columns.len() == g - col_start,
            forall|k: int|
                0 <= k < columns.len() ==> tally_holds(
                    #[trigger] columns@[k],
                    strings_view(column_types@),
                    rs,
                    col_start + k,
                    max_distinct as nat,
                ),
        decreases col_end - g,
    {
        let t = tally_column(column_types, rows, used, g, max_distinct);
        columns.push(t);
        g = g + 1;
    }
    Some(ChunkTallies { rows_used: used, columns })
}

/// The capped distinct values of a column are distinct and never more than
/// the cap, nor more than the rows looked at; null cells and true cells
/// together never outnumber those rows.
pub proof fn law_column_tally_bounds(rs: Seq<Seq<Seq<char>>>, g: int, max_distinct: nat)
    ensures
        distinct_values(rs, g, max_distinct).no_duplicates(),
        distinct_values(rs, g, max_distinct).len() <= max_distinct,
        distinct_values(rs, g, max_distinct).len() + null_count(rs, g) <= rs.len(),
        true_count(rs, g) + null_count(rs, g) <= rs.len(),
    decreases rs.len(),
{
    lemma_counts_bounded(rs, g);
    lemma_distinct_bounded(rs, g, max_distinct);
    if rs.len() > 0 {
        law_column_tally_bounds(rs.drop_last(), g, max_distinct);
    }
}

} // verus!
