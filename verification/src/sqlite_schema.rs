//! SQLite schema metadata, assembled from what the database answered to the
//! schema queries (`PRAGMA table_info`, `foreign_key_list`, `index_list`,
//! `index_info`, row counts): columns with their affinity and key flags,
//! primary keys in key order, foreign keys, indexes, totals, and the first
//! error met.

use vstd::prelude::*;

use crate::pickle::{opt_text, strings_view};
use crate::sqlite::{canonical_sqlite_declared_type, spec_affinity};

verus! {

// ---------------------------------------------------------------------------
// What the database answered
// ---------------------------------------------------------------------------

/// One row of `PRAGMA table_info`.
pub struct TableInfoRow {
    pub name: String,
    pub declared_type: Option<String>,
    pub not_null: i64,
    pub default_value: Option<String>,
    pub pk: i64,
}

/// One row of `PRAGMA foreign_key_list`.
pub struct ForeignKeyRow {
    pub references_table: String,
    pub from_column: String,
    pub to_column: String,
}

/// An index of a table (from `sqlite_master`) with its columns (`PRAGMA index_info`).
pub struct IndexAnswer {
    pub name: String,
    pub columns: Vec<String>,
}

/// The answers about one table; an `Err` holds the message of the query that
/// failed. `indexes` pairs the indexes with the rows `(name, unique)` of
/// `PRAGMA index_list`.
pub struct TableAnswers {
    pub name: String,
    pub table_info: Result<Vec<TableInfoRow>, String>,
    pub row_count: Option<usize>,
    pub foreign_keys: Result<Vec<ForeignKeyRow>, String>,
    pub indexes: Result<(Vec<IndexAnswer>, Vec<(String, i64)>), String>,
}

/// The answers of an opened database: the pragmas read (each where it could be
/// read) and the user tables in `sqlite_master` order, or the message of the
/// failed table-name query.
pub struct SqliteDatabase {
    pub page_size: Option<i64>,
    pub encoding: Option<String>,
    pub sqlite_version: Option<String>,
    pub tables: Result<Vec<TableAnswers>, String>,
}

// ---------------------------------------------------------------------------
// Metadata
// ---------------------------------------------------------------------------

/// A column of a table.
pub struct ColumnInfo {
    pub name: String,
    pub column_type: Option<String>,
    pub not_null: Option<bool>,
    pub default_value: Option<String>,
    pub is_primary_key: Option<bool>,
    pub is_foreign_key: Option<bool>,
}

/// A foreign key of a table.
pub struct ForeignKeyInfo {
    pub column: String,
    pub references_table: String,
    pub references_column: String,
}

/// An index of a table.
pub struct IndexInfo {
    pub name: String,
    pub table: String,
    pub columns: Vec<String>,
    pub unique: Option<bool>,
}

/// A user table.
pub struct TableInfo {
    pub name: String,
    pub column_count: Option<usize>,
    pub columns: Option<Vec<ColumnInfo>>,
    pub primary_keys: Option<Vec<String>>,
    pub row_count: Option<usize>,
    pub foreign_keys: Option<Vec<ForeignKeyInfo>>,
    pub indexes: Option<Vec<IndexInfo>>,
}

/// SQLite database metadata.
pub struct SqliteMetadata {
    pub file_size: Option<usize>,
    pub page_size: Option<usize>,
    pub encoding: Option<String>,
    pub sqlite_version: Option<String>,
    pub table_count: Option<usize>,
    pub total_rows: Option<usize>,
    pub tables: Option<Vec<TableInfo>>,
    pub error: Option<String>,
}

// ---------------------------------------------------------------------------
// Models
// ---------------------------------------------------------------------------

/// Model of a column.
pub struct ColumnView {
    pub name: Seq<char>,
    pub column_type: Option<Seq<char>>,
    pub not_null: Option<bool>,
    pub default_value: Option<Seq<char>>,
    pub is_primary_key: Option<bool>,
    pub is_foreign_key: Option<bool>,
}

/// Model of an index.
pub struct IndexView {
    pub name: Seq<char>,
    pub table: Seq<char>,
    pub columns: Seq<Seq<char>>,
    pub unique: Option<bool>,
}

/// Model of a table.
pub struct TableView {
    pub name: Seq<char>,
    pub column_count: Option<usize>,
    pub columns: Option<Seq<ColumnView>>,
    pub primary_keys: Option<Seq<Seq<char>>>,
    pub row_count: Option<usize>,
    pub foreign_keys: Option<Seq<(Seq<char>, Seq<char>, Seq<char>)>>,
    pub indexes: Option<Seq<IndexView>>,
}

pub open spec fn column_view(c: ColumnInfo) -> ColumnView {
    ColumnView {
        name: c.name@,
        column_type: opt_text(c.column_type),
        not_null: c.not_null,
        default_value: opt_text(c.default_value),
        is_primary_key: c.is_primary_key,
        is_foreign_key: c.is_foreign_key,
    }
}

pub open spec fn columns_view(v: Seq<ColumnInfo>) -> Seq<ColumnView> {
    v.map_values(|c: ColumnInfo| column_view(c))
}

pub open spec fn fk_view(f: ForeignKeyInfo) -> (Seq<char>, Seq<char>, Seq<char>) {
    (f.column@, f.references_table@, f.references_column@)
}

pub open spec fn fks_view(v: Seq<ForeignKeyInfo>) -> Seq<(Seq<char>, Seq<char>, Seq<char>)> {
    v.map_values(|f: ForeignKeyInfo| fk_view(f))
}

pub open spec fn index_view(i: IndexInfo) -> IndexView {
    IndexView { name: i.name@, table: i.table@, columns: strings_view(i.columns@), unique: i.unique }
}

pub open spec fn indexes_view(v: Seq<IndexInfo>) -> Seq<IndexView> {
    v.map_values(|i: IndexInfo| index_view(i))
}

pub open spec fn table_view(t: TableInfo) -> TableView {
    TableView {
        name: t.name@,
        column_count: t.column_count,
        columns: match t.columns {
            Some(c) => Some(columns_view(c@)),
            None => None,
        },
        primary_keys: match t.primary_keys {
            Some(p) => Some(strings_view(p@)),
            None => None,
        },
        row_count: t.row_count,
        foreign_keys: match t.foreign_keys {
            Some(f) => Some(fks_view(f@)),
            None => None,
        },
        indexes: match t.indexes {
            Some(i) => Some(indexes_view(i@)),
            None => None,
        },
    }
}

pub open spec fn tables_view(v: Seq<TableInfo>) -> Seq<TableView> {
    v.map_values(|t: TableInfo| table_view(t))
}

// ---------------------------------------------------------------------------
// Specification
// ---------------------------------------------------------------------------

/// `name` is the source column of one of the foreign keys.
pub open spec fn is_fk_column(fks: Seq<ForeignKeyRow>, name: Seq<char>) -> bool {
    exists|k: int| 0 <= k < fks.len() && (#[trigger] fks[k]).from_column@ == name
}

/// The affinity of an optional declared type.
pub open spec fn affinity_of(declared: Option<String>) -> Option<Seq<char>> {
    match declared {
        Some(t) => Some(spec_affinity(t@)),
        None => None,
    }
}

/// How a `table_info` row is listed as a column.
pub open spec fn column_of(r: TableInfoRow, fks: Seq<ForeignKeyRow>) -> ColumnView {
    ColumnView {
        name: r.name@,
        column_type: affinity_of(r.declared_type),
        not_null: Some(r.not_null != 0),
        default_value: opt_text(r.default_value),
        is_primary_key: Some(r.pk > 0),
        is_foreign_key: Some(is_fk_column(fks, r.name@)),
    }
}

/// The primary-key columns `(name, key position)`, in row order.
pub open spec fn pk_entries(rows: Seq<TableInfoRow>) -> Seq<(Seq<char>, i64)>
    decreases rows.len(),
{
    if rows.len() == 0 {
        Seq::empty()
    } else if rows.last().pk > 0 {
        pk_entries(rows.drop_last()).push((rows.last().name@, rows.last().pk))
    } else {
        pk_entries(rows.drop_last())
    }
}

/// `s` with `x` placed after every trailing entry whose key position is at most
/// `x`'s.
pub open spec fn insert_by_pk(s: Seq<(Seq<char>, i64)>, x: (Seq<char>, i64)) -> Seq<(Seq<char>, i64)>
    decreases s.len(),
{
    if s.len() == 0 {
        seq![x]
    } else if s.last().1 <= x.1 {
        s.push(x)
    } else {
        insert_by_pk(s.drop_last(), x).push(s.last())
    }
}

/// Entries in increasing key position, equal positions in their order in `s`
/// (a stable sort).
pub open spec fn sorted_by_pk(s: Seq<(Seq<char>, i64)>) -> Seq<(Seq<char>, i64)>
    decreases s.len(),
{
    if s.len() == 0 {
        s
    } else {
        insert_by_pk(sorted_by_pk(s.drop_last()), s.last())
    }
}

/// The primary-key column names in key order.
pub open spec fn primary_key_names(rows: Seq<TableInfoRow>) -> Seq<Seq<char>> {
    sorted_by_pk(pk_entries(rows)).map_values(|e: (Seq<char>, i64)| e.0)
}

/// Whether `PRAGMA index_list` marks the index `name` unique (its first row
/// with that name; not unique when there is none).
pub open spec fn listed_unique(list: Seq<(String, i64)>, name: Seq<char>) -> bool
    decreases list.len(),
{
    if list.len() == 0 {
        false
    } else if list[0].0@ == name {
        list[0].1 != 0
    } else {
        listed_unique(list.skip(1), name)
    }
}

/// How an index is listed.
pub open spec fn index_of(ix: IndexAnswer, table: Seq<char>, list: Seq<(String, i64)>) -> IndexView {
    IndexView {
        name: ix.name@,
        table,
        columns: strings_view(ix.columns@),
        unique: Some(listed_unique(list, ix.name@)),
    }
}

/// `None` for an empty sequence, else the sequence.
pub open spec fn unless_empty<A>(s: Seq<A>) -> Option<Seq<A>> {
    if s.len() == 0 {
        None
    } else {
        Some(s)
    }
}

/// The table as listed, or the message of the first of its queries that failed
/// (columns, then foreign keys, then indexes).
pub open spec fn spec_table(t: TableAnswers) -> Result<TableView, Seq<char>> {
    match t.table_info {
        Err(e) => Err(e@),
        Ok(rows) => match t.foreign_keys {
            Err(e) => Err(e@),
            Ok(fks) => match t.indexes {
                Err(e) => Err(e@),
                Ok((ixs, list)) => Ok(TableView {
                    name: t.name@,
                    column_count: Some(rows.len()),
                    columns: unless_empty(rows@.map_values(|r: TableInfoRow| column_of(r, fks@))),
                    primary_keys: unless_empty(primary_key_names(rows@)),
                    row_count: t.row_count,
                    foreign_keys: unless_empty(
                        fks@.map_values(
                            |f: ForeignKeyRow| (f.from_column@, f.references_table@, f.to_column@),
                        ),
                    ),
                    indexes: unless_empty(ixs@.map_values(|ix: IndexAnswer| index_of(ix, t.name@, list@))),
                }),
            },
        },
    }
}

/// The message of the first table that could not be listed.
pub open spec fn first_table_error(ts: Seq<TableAnswers>) -> Option<Seq<char>>
    decreases ts.len(),
{
    if ts.len() == 0 {
        None
    } else {
        match first_table_error(ts.drop_last()) {
            Some(e) => Some(e),
            None => match spec_table(ts.last()) {
                Err(e) => Some(e),
                Ok(_) => None,
            },
        }
    }
}

/// The tables as listed (meant where none failed).
pub open spec fn listed_tables(ts: Seq<TableAnswers>) -> Seq<TableView> {
    ts.map_values(|t: TableAnswers| spec_table(t)->Ok_0)
}

/// The sum of the tables' row counts (a table without one counts none).
pub open spec fn row_total(ts: Seq<TableAnswers>) -> nat
    decreases ts.len(),
{
    if ts.len() == 0 {
        0
    } else {
        row_total(ts.drop_last()) + match ts.last().row_count {
            Some(n) => n as nat,
            None => 0nat,
        }
    }
}

/// The page size as reported: where it is a size.
pub open spec fn page_size_of(p: Option<i64>) -> Option<usize> {
    match p {
        Some(v) => if 0 <= v <= usize::MAX {
            Some(v as usize)
        } else {
            None
        },
        None => None,
    }
}

// ---------------------------------------------------------------------------
// Assembly
// ---------------------------------------------------------------------------

fn copy_text(o: &Option<String>) -> (r: Option<String>)
    ensures
        opt_text(r) == opt_text(*o),
{
    match o {
        Some(s) => Some(s.clone()),
        None => None,
    }
}

fn copy_strings(v: &Vec<String>) -> (r: Vec<String>)
    ensures
        strings_view(r@) == strings_view(v@),
{
    let mut r: Vec<String> = Vec::new();
    let mut i: usize = 0;
    while i < v.len()
        invariant
            i <= v.len(),
            strings_view(r@) == strings_view(v@).take(i as int),
        decreases v.len() - i,
    {
        let s = v[i].clone();
        let ghost prev = r@;
        r.push(s);
        proof {
            assert(r@ == prev.push(s));
            assert(strings_view(r@) =~= strings_view(prev).push(s@));
            assert(strings_view(v@).take(i + 1) =~= strings_view(v@).take(i as int).push(v@[i as int]@));
        }
        i = i + 1;
    }
    assert(strings_view(v@).take(i as int) =~= strings_view(v@));
    r
}

/// Whether one of the foreign keys starts at column `name`.
fn fk_column(fks: &Vec<ForeignKeyRow>, name: &String) -> (r: bool)
    ensures
        r == is_fk_column(fks@, name@),
{
    let mut k: usize = 0;
    while k < fks.len()
        invariant
            k <= fks.len(),
            forall|j: int| 0 <= j < k ==> (#[trigger] fks@[j]).from_column@ != name@,
        decreases fks.len() - k,
    {
        if fks[k].from_column == *name {
            return true;
        }
        k = k + 1;
    }
    false
}

/// The columns listed from the `table_info` rows.
pub fn table_columns(rows: &Vec<TableInfoRow>, fks: &Vec<ForeignKeyRow>) -> (r: Vec<ColumnInfo>)
    ensures
        columns_view(r@) == rows@.map_values(|x: TableInfoRow| column_of(x, fks@)),
{
    let mut r: Vec<ColumnInfo> = Vec::new();
    let mut i: usize = 0;
    while i < rows.len()
        invariant
            i <= rows.len(),
            columns_view(r@) == rows@.take(i as int).map_values(|x: TableInfoRow| column_of(x, fks@)),
        decreases rows.len() - i,
    {
        let row = &rows[i];
        let c = ColumnInfo {
            name: row.name.clone(),
            column_type: canonical_sqlite_declared_type(row.declared_type.as_ref()),
            not_null: Some(row.not_null != 0),
            default_value: copy_text(&row.default_value),
            is_primary_key: Some(row.pk > 0),
            is_foreign_key: Some(fk_column(fks, &row.name)),
        };
        let ghost prev = r@;
        r.push(c);
        proof {
            assert(column_view(c) == column_of(rows@[i as int], fks@));
            assert(r@ == prev.push(c));
            assert(columns_view(r@) =~= columns_view(prev).push(column_view(c)));
            assert(rows@.take(i + 1) =~= rows@.take(i as int).push(rows@[i as int]));
        }
        i = i + 1;
    }
    assert(rows@.take(i as int) =~= rows@);
    r
}

proof fn lemma_insert_at(s: Seq<(Seq<char>, i64)>, x: (Seq<char>, i64), p: int)
    requires
        0 <= p <= s.len(),
        p == 0 || s[p - 1].1 <= x.1,
        forall|j: int| p <= j < s.len() ==> s[j].1 > x.1,
    ensures
        insert_by_pk(s, x) == s.insert(p, x),
    decreases s.len(),
{
    if s.len() == 0 {
        assert(s.insert(p, x) =~= seq![x]);
    } else if p == s.len() {
        assert(s.insert(p, x) =~= s.push(x));
    } else {
        lemma_insert_at(s.drop_last(), x, p);
        assert(s.insert(p, x) =~= s.drop_last().insert(p, x).push(s.last()));
    }
}

/// Key positions never decrease along `s`.
pub open spec fn pk_ascending(s: Seq<(Seq<char>, i64)>) -> bool {
    forall|i: int, j: int| 0 <= i < j < s.len() ==> s[i].1 <= s[j].1
}

proof fn lemma_insert_ascending(s: Seq<(Seq<char>, i64)>, x: (Seq<char>, i64))
    requires
        pk_ascending(s),
    ensures
        pk_ascending(insert_by_pk(s, x)),
        insert_by_pk(s, x).len() == s.len() + 1,
    decreases s.len(),
{
    if s.len() > 0 && s.last().1 > x.1 {
        lemma_insert_ascending(s.drop_last(), x);
        let t = insert_by_pk(s.drop_last(), x);
        lemma_insert_members(s.drop_last(), x);
        assert forall|i: int, j: int| 0 <= i < j < t.push(s.last()).len() implies t.push(s.last())[i].1 <= t.push(
            s.last(),
        )[j].1 by {
            if j == t.len() {
                let e = t[i];
                if e == x {
                } else {
                    let k = choose|k: int| 0 <= k < s.drop_last().len() && s.drop_last()[k] == e;
                    assert(s[k] == e);
                }
            }
        }
    }
}

proof fn lemma_insert_members(s: Seq<(Seq<char>, i64)>, x: (Seq<char>, i64))
    ensures
        forall|i: int| 0 <= i < insert_by_pk(s, x).len() ==> (#[trigger] insert_by_pk(s, x)[i] == x || exists|k: int|
            0 <= k < s.len() && s[k] == insert_by_pk(s, x)[i]),
        insert_by_pk(s, x).len() == s.len() + 1,
    decreases s.len(),
{
    if s.len() > 0 && s.last().1 > x.1 {
        lemma_insert_members(s.drop_last(), x);
        let t = insert_by_pk(s.drop_last(), x);
        assert forall|i: int| 0 <= i < t.push(s.last()).len() implies (#[trigger] t.push(s.last())[i] == x || exists|k: int|
            0 <= k < s.len() && s[k] == t.push(s.last())[i]) by {
            if i == t.len() {
                assert(s[s.len() - 1] == t.push(s.last())[i]);
            } else if t[i] != x {
                let k = choose|k: int| 0 <= k < s.drop_last().len() && s.drop_last()[k] == t[i];
                assert(s[k] == t.push(s.last())[i]);
            }
        }
    } else if s.len() > 0 {
        assert forall|i: int| 0 <= i < s.push(x).len() implies (#[trigger] s.push(x)[i] == x || exists|k: int|
            0 <= k < s.len() && s[k] == s.push(x)[i]) by {
            if i < s.len() {
                assert(s[i] == s.push(x)[i]);
            }
        }
    }
}

/// `sorted_by_pk` puts key positions in increasing order.
pub proof fn lemma_sorted_ascending(s: Seq<(Seq<char>, i64)>)
    ensures
        pk_ascending(sorted_by_pk(s)),
        sorted_by_pk(s).len() == s.len(),
    decreases s.len(),
{
    if s.len() > 0 {
        lemma_sorted_ascending(s.drop_last());
        lemma_insert_ascending(sorted_by_pk(s.drop_last()), s.last());
    }
}

/// The primary-key column names, in key order (ties in row order).
pub fn primary_keys(rows: &Vec<TableInfoRow>) -> (r: Vec<String>)
    ensures
        strings_view(r@) == primary_key_names(rows@),
{
    let ghost entries = pk_entries(rows@);
    let mut sorted: Vec<(String, i64)> = Vec::new();
    let mut k: usize = 0;
    while k < rows.len()
        invariant
            k <= rows.len(),
            entries == pk_entries(rows@),
            sorted@.map_values(|e: (String, i64)| (e.0@, e.1)) == sorted_by_pk(pk_entries(rows@.take(k as int))),
            pk_ascending(sorted@.map_values(|e: (String, i64)| (e.0@, e.1))),
        decreases rows.len() - k,
    {
        assert(rows@.take(k + 1).drop_last() =~= rows@.take(k as int));
        assert(rows@.take(k + 1).last() == rows@[k as int]);
        if rows[k].pk > 0 {
            let x = (rows[k].name.clone(), rows[k].pk);
            let ghost sv = sorted@.map_values(|e: (String, i64)| (e.0@, e.1));
            let mut p = sorted.len();
            while p > 0 && sorted[p - 1].1 > x.1
                invariant
                    p <= sorted.len(),
                    sv == sorted@.map_values(|e: (String, i64)| (e.0@, e.1)),
                    forall|j: int| p <= j < sorted.len() ==> sv[j].1 > x.1,
                decreases p,
            {
                p = p - 1;
            }
            proof {
                lemma_insert_at(sv, (x.0@, x.1), p as int);
                lemma_insert_ascending(sv, (x.0@, x.1));
            }
            sorted.insert(p, x);
            assert(sorted@.map_values(|e: (String, i64)| (e.0@, e.1)) =~= sv.insert(p as int, (x.0@, x.1)));
            proof {
                let prev = pk_entries(rows@.take(k as int));
                assert(pk_entries(rows@.take(k + 1)) == prev.push((x.0@, x.1)));
                assert(prev.push((x.0@, x.1)).drop_last() =~= prev);
            }
        } else {
            assert(pk_entries(rows@.take(k + 1)) == pk_entries(rows@.take(k as int)));
        }
        k = k + 1;
    }
    assert(rows@.take(k as int) =~= rows@);
    let mut r: Vec<String> = Vec::new();
    let mut i: usize = 0;
    let ghost sv = sorted@.map_values(|e: (String, i64)| (e.0@, e.1));
    while i < sorted.len()
        invariant
            i <= sorted.len(),
            sv == sorted@.map_values(|e: (String, i64)| (e.0@, e.1)),
            strings_view(r@) == sv.take(i as int).map_values(|e: (Seq<char>, i64)| e.0),
        decreases sorted.len() - i,
    {
        let s = sorted[i].0.clone();
        let ghost prev = r@;
        r.push(s);
        proof {
            assert(r@ == prev.push(s));
            assert(strings_view(r@) =~= strings_view(prev).push(s@));
            assert(sv.take(i + 1) =~= sv.take(i as int).push(sv[i as int]));
        }
        i = i + 1;
    }
    assert(sv.take(i as int) =~= sv);
    r
}

/// The indexes as listed, uniqueness read from the `index_list` rows.
fn table_indexes(ixs: &Vec<IndexAnswer>, table: &String, list: &Vec<(String, i64)>) -> (r: Vec<IndexInfo>)
    ensures
        indexes_view(r@) == ixs@.map_values(|ix: IndexAnswer| index_of(ix, table@, list@)),
{
    let mut r: Vec<IndexInfo> = Vec::new();
    let mut i: usize = 0;
    while i < ixs.len()
        invariant
            i <= ixs.len(),
            indexes_view(r@) == ixs@.take(i as int).map_values(|ix: IndexAnswer| index_of(ix, table@, list@)),
        decreases ixs.len() - i,
    {
        let ix = &ixs[i];
        let unique = index_unique(list, &ix.name);
        let info = IndexInfo { name: ix.name.clone(), table: table.clone(), columns: copy_strings(&ix.columns), unique: Some(unique) };
        let ghost prev = r@;
        r.push(info);
        proof {
            assert(index_view(info) == index_of(ixs@[i as int], table@, list@));
            assert(r@ == prev.push(info));
            assert(indexes_view(r@) =~= indexes_view(prev).push(index_view(info)));
            assert(ixs@.take(i + 1) =~= ixs@.take(i as int).push(ixs@[i as int]));
        }
        i = i + 1;
    }
    assert(ixs@.take(i as int) =~= ixs@);
    r
}

/// Whether the first `index_list` row named `name` marks it unique.
fn index_unique(list: &Vec<(String, i64)>, name: &String) -> (r: bool)
    ensures
        r == listed_unique(list@, name@),
{
    let mut k: usize = 0;
    assert(list@.skip(0) =~= list@);
    while k < list.len()
        invariant
            k <= list.len(),
            listed_unique(list@, name@) == listed_unique(list@.skip(k as int), name@),
        decreases list.len() - k,
    {
        assert(list@.skip(k as int)[0] == list@[k as int]);
        assert(list@.skip(k as int).skip(1) =~= list@.skip(k + 1));
        if list[k].0 == *name {
            return list[k].1 != 0;
        }
        k = k + 1;
    }
    false
}

/// The foreign keys as listed.
fn table_foreign_keys(fks: &Vec<ForeignKeyRow>) -> (r: Vec<ForeignKeyInfo>)
    ensures
        fks_view(r@) == fks@.map_values(|f: ForeignKeyRow| (f.from_column@, f.references_table@, f.to_column@)),
{
    let mut r: Vec<ForeignKeyInfo> = Vec::new();
    let mut i: usize = 0;
    while i < fks.len()
        invariant
            i <= fks.len(),
            fks_view(r@) == fks@.take(i as int).map_values(
                |f: ForeignKeyRow| (f.from_column@, f.references_table@, f.to_column@),
            ),
        decreases fks.len() - i,
    {
        let f = &fks[i];
        let info = ForeignKeyInfo {
            column: f.from_column.clone(),
            references_table: f.references_table.clone(),
            references_column: f.to_column.clone(),
        };
        let ghost prev = r@;
        r.push(info);
        proof {
            assert(r@ == prev.push(info));
            assert(fks_view(r@) =~= fks_view(prev).push(fk_view(info)));
            assert(fks@.take(i + 1) =~= fks@.take(i as int).push(fks@[i as int]));
        }
        i = i + 1;
    }
    assert(fks@.take(i as int) =~= fks@);
    r
}

/// Lists one table: its columns (with affinity, primary- and foreign-key flags),
/// primary keys in key order, row count, foreign keys and indexes; or the
/// message of the first of its queries that failed.
pub fn build_table_info(t: &TableAnswers) -> (r: Result<TableInfo, String>)
    ensures
        match spec_table(*t) {
            Ok(v) => r matches Ok(info) && table_view(info) == v,
            Err(e) => r matches Err(m) && m@ == e,
        },
{
    let rows = match &t.table_info {
        Ok(rows) => rows,
        Err(e) => return Err(e.clone()),
    };
    let fks = match &t.foreign_keys {
        Ok(f) => f,
        Err(e) => return Err(e.clone()),
    };
    let (ixs, list) = match &t.indexes {
        Ok((ixs, list)) => (ixs, list),
        Err(e) => return Err(e.clone()),
    };
    let columns = table_columns(rows, fks);
    let pks = primary_keys(rows);
    let foreign = table_foreign_keys(fks);
    let indexes = table_indexes(ixs, &t.name, list);
    let info = TableInfo {
        name: t.name.clone(),
        column_count: Some(rows.len()),
        columns: if columns.len() == 0 { None } else { Some(columns) },
        primary_keys: if pks.len() == 0 { None } else { Some(pks) },
        row_count: t.row_count,
        foreign_keys: if foreign.len() == 0 { None } else { Some(foreign) },
        indexes: if indexes.len() == 0 { None } else { Some(indexes) },
    };
    assert(table_view(info) == spec_table(*t)->Ok_0);
    Ok(info)
}

/// Assembles SQLite metadata from the database's answers (`opened` holds the
/// message of the failure to open it). A failed query of the table names, or
/// the first table that cannot be listed, ends the listing with its message in
/// `error`; otherwise every table is listed and their row counts summed.
pub fn extract_sqlite_metadata(opened: &Result<SqliteDatabase, String>, byte_count: usize) -> (m: SqliteMetadata)
    requires
        opened matches Ok(db) && db.tables matches Ok(ts) ==> row_total(ts@) <= usize::MAX,
    ensures
        m.file_size == Some(byte_count),
        match opened {
            Err(e) => {
                &&& opt_text(m.error) == Some(e@)
                &&& m.page_size is None && m.encoding is None && m.sqlite_version is None
                &&& m.table_count is None && m.total_rows is None && m.tables is None
            },
            Ok(db) => {
                &&& m.page_size == page_size_of(db.page_size)
                &&& opt_text(m.encoding) == opt_text(db.encoding)
                &&& opt_text(m.sqlite_version) == opt_text(db.sqlite_version)
                &&& match db.tables {
                    Err(e) => opt_text(m.error) == Some(e@) && m.table_count is None && m.total_rows is None && m.tables is None,
                    Ok(ts) => {
                        &&& m.table_count == Some(ts.len())
                        &&& match first_table_error(ts@) {
                            Some(e) => opt_text(m.error) == Some(e) && m.total_rows is None && m.tables is None,
                            None => {
                                &&& m.error is None
                                &&& m.total_rows == Some(row_total(ts@) as usize)
                                &&& match m.tables {
                                    Some(v) => ts.len() > 0 && tables_view(v@) == listed_tables(ts@),
                                    None => ts.len() == 0,
                                }
                            },
                        }
                    },
                }
            },
        },
{
    let mut m = SqliteMetadata {
        file_size: Some(byte_count),
        page_size: None,
        encoding: None,
        sqlite_version: None,
        table_count: None,
        total_rows: None,
        tables: None,
        error: None,
    };
    let db = match opened {
        Err(e) => {
            m.error = Some(e.clone());
            return m;
        },
        Ok(db) => db,
    };
    m.page_size = match db.page_size {
        Some(v) => if 0 <= v && v as u64 <= usize::MAX as u64 { Some(v as usize) } else { None },
        None => None,
    };
    m.encoding = copy_text(&db.encoding);
    m.sqlite_version = copy_text(&db.sqlite_version);
    let ts = match &db.tables {
        Err(e) => {
            m.error = Some(e.clone());
            return m;
        },
        Ok(ts) => ts,
    };
    m.table_count = Some(ts.len());
    let mut tables: Vec<TableInfo> = Vec::new();
    let mut total: usize = 0;
    let mut i: usize = 0;
    while i < ts.len()
        invariant
            i <= ts.len(),
            *opened matches Ok(d) && d == *db,
            db.tables matches Ok(t2) && t2 == *ts,
            m.file_size == Some(byte_count),
            m.error is None,
            m.page_size == page_size_of(db.page_size),
            opt_text(m.encoding) == opt_text(db.encoding),
            opt_text(m.sqlite_version) == opt_text(db.sqlite_version),
            m.table_count == Some(ts.len()),
            m.total_rows is None,
            m.tables is None,
            row_total(ts@) <= usize::MAX,
            first_table_error(ts@.take(i as int)) is None,
            tables_view(tables@) == listed_tables(ts@.take(i as int)),
            total == row_total(ts@.take(i as int)),
            row_total(ts@.take(i as int)) <= row_total(ts@),
        decreases ts.len() - i,
    {
        assert(ts@.take(i + 1).drop_last() =~= ts@.take(i as int));
        assert(ts@.take(i + 1).last() == ts@[i as int]);
        proof {
            lemma_row_total_prefix(ts@, i + 1);
        }
        match build_table_info(&ts[i]) {
            Err(e) => {
                m.error = Some(e);
                proof {
                    lemma_first_error_prefix(ts@, i + 1);
                }
                return m;
            },
            Ok(info) => {
                if let Some(n) = ts[i].row_count {
                    total = total + n;
                }
                let ghost prev = tables@;
                tables.push(info);
                proof {
                    assert(tables@ == prev.push(info));
                    assert(tables_view(tables@) =~= tables_view(prev).push(table_view(info)));
                    assert(listed_tables(ts@.take(i + 1)) =~= listed_tables(ts@.take(i as int)).push(
                        spec_table(ts@[i as int])->Ok_0,
                    ));
                }
            },
        }
        i = i + 1;
    }
    assert(ts@.take(i as int) =~= ts@);
    m.total_rows = Some(total);
    if tables.len() > 0 {
        m.tables = Some(tables);
    }
    m
}

proof fn lemma_row_total_prefix(ts: Seq<TableAnswers>, k: int)
    requires
        0 <= k <= ts.len(),
    ensures
        row_total(ts.take(k)) <= row_total(ts),
    decreases ts.len() - k,
{
    if k < ts.len() {
        lemma_row_total_prefix(ts, k + 1);
        assert(ts.take(k + 1).drop_last() =~= ts.take(k));
    } else {
        assert(ts.take(k) =~= ts);
    }
}

proof fn lemma_first_error_prefix(ts: Seq<TableAnswers>, k: int)
    requires
        0 <= k <= ts.len(),
        first_table_error(ts.take(k)) is Some,
    ensures
        first_table_error(ts) == first_table_error(ts.take(k)),
    decreases ts.len() - k,
{
    if k < ts.len() {
        assert(ts.take(k + 1).drop_last() =~= ts.take(k));
        lemma_first_error_prefix(ts, k + 1);
    } else {
        assert(ts.take(k) =~= ts);
    }
}

proof fn lemma_pk_entries_count(rows: Seq<TableInfoRow>)
    ensures
        pk_entries(rows).len() <= rows.len(),
        forall|i: int| 0 <= i < pk_entries(rows).len() ==> (#[trigger] pk_entries(rows)[i]).1 > 0,
    decreases rows.len(),
{
    if rows.len() > 0 {
        lemma_pk_entries_count(rows.drop_last());
    }
}

/// The primary keys of a table are listed in increasing key position, one for
/// each column whose key position is positive, never more than the columns.
pub proof fn law_primary_keys_in_key_order(rows: Seq<TableInfoRow>)
    ensures
        pk_ascending(sorted_by_pk(pk_entries(rows))),
        primary_key_names(rows).len() == pk_entries(rows).len(),
        primary_key_names(rows).len() <= rows.len(),
{
    lemma_sorted_ascending(pk_entries(rows));
    lemma_pk_entries_count(rows);
}

} // verus!
