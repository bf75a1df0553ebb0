//! TOML documents: section and key counts, nesting depth and the type schema of
//! the top-level table.

use vstd::prelude::*;

use vstd::utf8::{decode_utf8, valid_utf8};

use crate::text::{join_text, utf8_error_message, utf8_error_text, utf8_str};

verus! {

/// A parsed TOML value, as far as the schema reads it: the kind of each scalar,
/// the items of arrays, and the entries of tables in the order the parser gives.
pub enum TomlValue {
    String,
    Integer,
    Float,
    Boolean,
    Datetime,
    Array(Vec<TomlValue>),
    Table(Vec<(String, TomlValue)>),
}

/// Type information of a value: a scalar's type name, an array's element type
/// (its first item's), or a table's entries.
pub enum TomlTypeInfo {
    Scalar(String),
    Array(Box<TomlTypeInfo>),
    Table(Vec<(String, TomlTypeInfo)>),
}

/// Metadata of a TOML file.
pub struct TomlMetadata {
    pub file_size: Option<usize>,
    pub section_count: Option<usize>,
    pub key_count: Option<usize>,
    pub max_depth: Option<usize>,
    pub schema: Option<Vec<(String, TomlTypeInfo)>>,
}

// ---------------------------------------------------------------------------
// The parser
// ---------------------------------------------------------------------------

#[verifier::external_type_specification]
#[verifier::external_body]
pub struct ExTomlValue(toml::Value);

/// The value `toml::from_str` gives for a document, or the text of its error.
pub uninterp spec fn toml_document(text: Seq<char>) -> Result<TomlValue, Seq<char>>;

/// Converts a parsed value, node for node.
#[verifier::external_body]
fn toml_value_of(v: toml::Value) -> TomlValue {
    match v {
        toml::Value::String(_) => TomlValue::String,
        toml::Value::Integer(_) => TomlValue::Integer,
        toml::Value::Float(_) => TomlValue::Float,
        toml::Value::Boolean(_) => TomlValue::Boolean,
        toml::Value::Datetime(_) => TomlValue::Datetime,
        toml::Value::Array(a) => TomlValue::Array(a.into_iter().map(toml_value_of).collect()),
        toml::Value::Table(t) => TomlValue::Table(t.into_iter().map(|(k, v)| (k, toml_value_of(v))).collect()),
    }
}

/// `toml::from_str` into a `toml::Value`; an error as its display text.
#[verifier::external_body]
fn toml_parse(text: &str) -> (r: Result<TomlValue, String>)
    ensures
        match r {
            Ok(v) => toml_document(text@) == Ok::<TomlValue, Seq<char>>(v),
            Err(e) => toml_document(text@) == Err::<TomlValue, Seq<char>>(e@),
        },
{
    match toml::from_str::<toml::Value>(text) {
        Ok(v) => Ok(toml_value_of(v)),
        Err(e) => Err(e.to_string()),
    }
}

// ---------------------------------------------------------------------------
// Counts
// ---------------------------------------------------------------------------

/// Number of tables in a value, itself included.
pub open spec fn table_count(v: TomlValue) -> nat
    decreases v,
{
    match v {
        TomlValue::Table(t) => 1 + tables_in(t@),
        _ => 0,
    }
}

/// Number of tables in the values of some entries.
pub open spec fn tables_in(es: Seq<(String, TomlValue)>) -> nat
    decreases es,
{
    if es.len() == 0 {
        0
    } else {
        proof {
            assert(decreases_to!(es => es.last()));
        }
        tables_in(es.drop_last()) + table_count(es.last().1)
    }
}

/// Number of keys over all tables of a value.
pub open spec fn key_count(v: TomlValue) -> nat
    decreases v,
{
    match v {
        TomlValue::Table(t) => t@.len() + keys_in(t@),
        _ => 0,
    }
}

/// Number of keys over all tables in the values of some entries.
pub open spec fn keys_in(es: Seq<(String, TomlValue)>) -> nat
    decreases es,
{
    if es.len() == 0 {
        0
    } else {
        proof {
            assert(decreases_to!(es => es.last()));
        }
        keys_in(es.drop_last()) + key_count(es.last().1)
    }
}

/// Nesting depth of a value found `d` tables deep: a non-empty table is one
/// level deeper than its deepest value.
pub open spec fn depth(d: nat, v: TomlValue) -> nat
    decreases v,
{
    match v {
        TomlValue::Table(t) => if t@.len() == 0 {
            d
        } else {
            depth_in(d + 1, t@)
        },
        _ => d,
    }
}

/// Deepest nesting among the values of some entries.
pub open spec fn depth_in(d: nat, es: Seq<(String, TomlValue)>) -> nat
    decreases es,
{
    if es.len() == 0 {
        0
    } else {
        proof {
            assert(decreases_to!(es => es.last()));
        }
        let a = depth_in(d, es.drop_last());
        let b = depth(d, es.last().1);
        if a >= b {
            a
        } else {
            b
        }
    }
}

/// A count as a `usize`, where it fits.
pub open spec fn fits(n: nat) -> Option<usize> {
    if n <= usize::MAX {
        Some(n as usize)
    } else {
        None
    }
}

proof fn lemma_sums_grow(es: Seq<(String, TomlValue)>, k: int)
    requires
        0 <= k <= es.len(),
    ensures
        tables_in(es.take(k)) <= tables_in(es),
        keys_in(es.take(k)) <= keys_in(es),
    decreases es.len() - k,
{
    if k < es.len() {
        lemma_sums_grow(es, k + 1);
        assert(es.take(k + 1).drop_last() =~= es.take(k));
    } else {
        assert(es.take(k) =~= es);
    }
}

/// Tables in a value, itself included (`None` where the count does not fit).
fn count_tables(v: &TomlValue) -> (r: Option<usize>)
    ensures
        r == fits(table_count(*v)),
    decreases v,
{
    match v {
        TomlValue::Table(t) => {
            let mut n: usize = 1;
            let mut i: usize = 0;
            while i < t.len()
                invariant
                    i <= t.len(),
                    *v == TomlValue::Table(*t),
                    n == 1 + tables_in(t@.take(i as int)),
                decreases t.len() - i,
            {
                assert(t@.take(i + 1).drop_last() =~= t@.take(i as int));
                assert(t@.take(i + 1).last() == t@[i as int]);
                assert(tables_in(t@.take(i + 1)) == tables_in(t@.take(i as int)) + table_count(
                    t@[i as int].1,
                ));
                assert(decreases_to!(*v => t@[i as int].1)) by {
                    assert(decreases_to!(*v => *t));
                    assert(decreases_to!(*t => t@));
                    assert(decreases_to!(t@ => t@[i as int]));
                }
                let c = count_tables(&t[i].1);
                match c {
                    Some(c) => {
                        if n > usize::MAX - c {
                            proof {
                                lemma_sums_grow(t@, i + 1);
                            }
                            return None;
                        }
                        n = n + c;
                    },
                    None => {
                        proof {
                            lemma_sums_grow(t@, i + 1);
                        }
                        return None;
                    },
                }
                i = i + 1;
            }
            assert(t@.take(i as int) =~= t@);
            Some(n)
        },
        _ => Some(0),
    }
}

/// Keys over all tables of a value (`None` where the count does not fit).
fn count_keys(v: &TomlValue) -> (r: Option<usize>)
    ensures
        r == fits(key_count(*v)),
    decreases v,
{
    match v {
        TomlValue::Table(t) => {
            let mut n: usize = t.len();
            let mut i: usize = 0;
            while i < t.len()
                invariant
                    i <= t.len(),
                    *v == TomlValue::Table(*t),
                    n == t@.len() + keys_in(t@.take(i as int)),
                decreases t.len() - i,
            {
                assert(t@.take(i + 1).drop_last() =~= t@.take(i as int));
                assert(t@.take(i + 1).last() == t@[i as int]);
                assert(keys_in(t@.take(i + 1)) == keys_in(t@.take(i as int)) + key_count(
                    t@[i as int].1,
                ));
                assert(decreases_to!(*v => t@[i as int].1)) by {
                    assert(decreases_to!(*v => *t));
                    assert(decreases_to!(*t => t@));
                    assert(decreases_to!(t@ => t@[i as int]));
                }
                let c = count_keys(&t[i].1);
                match c {
                    Some(c) => {
                        if n > usize::MAX - c {
                            proof {
                                lemma_sums_grow(t@, i + 1);
                            }
                            return None;
                        }
                        n = n + c;
                    },
                    None => {
                        proof {
                            lemma_sums_grow(t@, i + 1);
                        }
                        return None;
                    },
                }
                i = i + 1;
            }
            assert(t@.take(i as int) =~= t@);
            Some(n)
        },
        _ => Some(0),
    }
}

proof fn lemma_depth_at_least(d: nat, v: TomlValue)
    ensures
        depth(d, v) >= d,
    decreases v,
{
    match v {
        TomlValue::Table(t) => {
            if t@.len() > 0 {
                lemma_depth_in_at_least(d + 1, t@);
            }
        },
        _ => {},
    }
}

proof fn lemma_depth_in_at_least(d: nat, es: Seq<(String, TomlValue)>)
    requires
        es.len() > 0,
    ensures
        depth_in(d, es) >= d,
    decreases es,
{
    assert(decreases_to!(es => es.last()));
    lemma_depth_at_least(d, es.last().1);
}

proof fn lemma_depth_in_grows(d: nat, es: Seq<(String, TomlValue)>, k: int)
    requires
        0 <= k <= es.len(),
    ensures
        depth_in(d, es.take(k)) <= depth_in(d, es),
    decreases es.len() - k,
{
    if k < es.len() {
        lemma_depth_in_grows(d, es, k + 1);
        assert(es.take(k + 1).drop_last() =~= es.take(k));
    } else {
        assert(es.take(k) =~= es);
    }
}

/// Nesting depth of a value found `d` tables deep (`None` where it does not
/// fit).
fn max_depth_rec(d: usize, v: &TomlValue) -> (r: Option<usize>)
    ensures
        r == fits(depth(d as nat, *v)),
    decreases v,
{
    match v {
        TomlValue::Table(t) => {
            if t.len() == 0 {
                return Some(d);
            }
            if d == usize::MAX {
                proof {
                    lemma_depth_in_at_least((d + 1) as nat, t@);
                }
                return None;
            }
            let mut best: usize = 0;
            let mut i: usize = 0;
            while i < t.len()
                invariant
                    i <= t.len(),
                    d < usize::MAX,
                    *v == TomlValue::Table(*t),
                    best == depth_in((d + 1) as nat, t@.take(i as int)),
                decreases t.len() - i,
            {
                assert(t@.take(i + 1).drop_last() =~= t@.take(i as int));
                assert(t@.take(i + 1).last() == t@[i as int]);
                assert(decreases_to!(*v => t@[i as int].1)) by {
                    assert(decreases_to!(*v => *t));
                    assert(decreases_to!(*t => t@));
                    assert(decreases_to!(t@ => t@[i as int]));
                }
                match max_depth_rec(d + 1, &t[i].1) {
                    Some(c) => {
                        if c > best {
                            best = c;
                        }
                    },
                    None => {
                        proof {
                            lemma_depth_in_grows((d + 1) as nat, t@, i + 1);
                        }
                        return None;
                    },
                }
                i = i + 1;
            }
            assert(t@.take(i as int) =~= t@);
            Some(best)
        },
        _ => Some(d),
    }
}

// ---------------------------------------------------------------------------
// Type schema
// ---------------------------------------------------------------------------

/// `i` is the type information of `v`.
pub open spec fn describes(i: TomlTypeInfo, v: TomlValue) -> bool
    decreases v,
{
    match v {
        TomlValue::String => i matches TomlTypeInfo::Scalar(s) && s@ == "string"@,
        TomlValue::Integer => i matches TomlTypeInfo::Scalar(s) && s@ == "integer"@,
        TomlValue::Float => i matches TomlTypeInfo::Scalar(s) && s@ == "float"@,
        TomlValue::Boolean => i matches TomlTypeInfo::Scalar(s) && s@ == "boolean"@,
        TomlValue::Datetime => i matches TomlTypeInfo::Scalar(s) && s@ == "datetime"@,
        TomlValue::Array(a) => match i {
            TomlTypeInfo::Array(e) => if a@.len() == 0 {
                *e matches TomlTypeInfo::Scalar(s) && s@ == "unknown"@
            } else {
                proof {
                    assert(decreases_to!(a => a@));
                    assert(decreases_to!(a@ => a@[0]));
                }
                describes(*e, a@[0])
            },
            _ => false,
        },
        TomlValue::Table(t) => match i {
            TomlTypeInfo::Table(u) => describes_entries(u@, t@),
            _ => false,
        },
    }
}

/// `u` holds the keys of `es`, in order, each with the type information of its
/// value.
pub open spec fn describes_entries(u: Seq<(String, TomlTypeInfo)>, es: Seq<(String, TomlValue)>) -> bool
    decreases es,
{
    if es.len() == 0 {
        u.len() == 0
    } else {
        proof {
            assert(decreases_to!(es => es.last()));
        }
        &&& u.len() == es.len()
        &&& u.last().0@ == es.last().0@
        &&& describes(u.last().1, es.last().1)
        &&& describes_entries(u.drop_last(), es.drop_last())
    }
}

/// The type information of a value.
fn value_to_type_info(v: &TomlValue) -> (r: TomlTypeInfo)
    ensures
        describes(r, *v),
    decreases v,
{
    match v {
        TomlValue::String => TomlTypeInfo::Scalar("string".to_owned()),
        TomlValue::Integer => TomlTypeInfo::Scalar("integer".to_owned()),
        TomlValue::Float => TomlTypeInfo::Scalar("float".to_owned()),
        TomlValue::Boolean => TomlTypeInfo::Scalar("boolean".to_owned()),
        TomlValue::Datetime => TomlTypeInfo::Scalar("datetime".to_owned()),
        TomlValue::Array(a) => {
            if a.len() == 0 {
                TomlTypeInfo::Array(Box::new(TomlTypeInfo::Scalar("unknown".to_owned())))
            } else {
                assert(decreases_to!(*v => a@[0])) by {
                    assert(decreases_to!(*v => *a));
                    assert(decreases_to!(*a => a@));
                    assert(decreases_to!(a@ => a@[0]));
                }
                TomlTypeInfo::Array(Box::new(value_to_type_info(&a[0])))
            }
        },
        TomlValue::Table(t) => TomlTypeInfo::Table(entries_type_info(t)),
    }
}

/// The type information of each entry's value, keys kept.
fn entries_type_info(t: &Vec<(String, TomlValue)>) -> (r: Vec<(String, TomlTypeInfo)>)
    ensures
        describes_entries(r@, t@),
    decreases t,
{
    let mut out: Vec<(String, TomlTypeInfo)> = Vec::new();
    let mut i: usize = 0;
    while i < t.len()
        invariant
            i <= t.len(),
            describes_entries(out@, t@.take(i as int)),
        decreases t.len() - i,
    {
        assert(t@.take(i + 1).drop_last() =~= t@.take(i as int));
        assert(t@.take(i + 1).last() == t@[i as int]);
        assert(decreases_to!(*t => t@[i as int].1)) by {
            assert(decreases_to!(*t => t@));
            assert(decreases_to!(t@ => t@[i as int]));
        }
        let info = value_to_type_info(&t[i].1);
        let key = t[i].0.clone();
        let ghost before = out@;
        out.push((key, info));
        assert(out@.drop_last() =~= before);
        i = i + 1;
    }
    assert(t@.take(i as int) =~= t@);
    out
}

// ---------------------------------------------------------------------------
// Metadata
// ---------------------------------------------------------------------------

/// `m` is the metadata of the document `v` of a file of `byte_count` bytes.
pub open spec fn toml_metadata_of(m: TomlMetadata, v: TomlValue, byte_count: usize) -> bool {
    &&& m.file_size == Some(byte_count)
    &&& m.section_count == fits(table_count(v))
    &&& m.key_count == fits(key_count(v))
    &&& m.max_depth == fits(depth(0, v))
    &&& match v {
        TomlValue::Table(t) => m.schema matches Some(s) && describes_entries(s@, t@),
        _ => m.schema is None,
    }
}

/// The counts of `v` all fit a `usize`.
pub open spec fn counts_fit(v: TomlValue) -> bool {
    table_count(v) <= usize::MAX && key_count(v) <= usize::MAX && depth(0, v) <= usize::MAX
}

/// Extracts the metadata of a TOML file: section (table) count, key count,
/// nesting depth and the type schema of the top-level table.
pub fn extract_toml_metadata(content: &[u8], byte_count: usize) -> (r: Result<TomlMetadata, String>)
    ensures
        !valid_utf8(content@) ==> r is Err && r->Err_0@ == "TOML must be valid UTF-8: "@ + utf8_error_text(content@),
        valid_utf8(content@) ==> match toml_document(decode_utf8(content@)) {
            Err(e) => r is Err && r->Err_0@ == "TOML parse error: "@ + e,
            Ok(v) => if counts_fit(v) {
                r matches Ok(m) && toml_metadata_of(m, v, byte_count)
            } else {
                r is Err && r->Err_0@ == "TOML document too large to count"@
            },
        },
{
    let s = match utf8_str(content) {
        Some(s) => s,
        None => return Err(join_text("TOML must be valid UTF-8: ", utf8_error_message(content).as_str())),
    };
    let value = match toml_parse(s) {
        Ok(v) => v,
        Err(e) => return Err(join_text("TOML parse error: ", e.as_str())),
    };
    let section_count = count_tables(&value);
    let key_count = count_keys(&value);
    let max_depth = max_depth_rec(0, &value);
    if section_count.is_none() || key_count.is_none() || max_depth.is_none() {
        return Err("TOML document too large to count".to_owned());
    }
    let schema = match &value {
        TomlValue::Table(t) => Some(entries_type_info(t)),
        _ => None,
    };
    Ok(TomlMetadata { file_size: Some(byte_count), section_count, key_count, max_depth, schema })
}

// ---------------------------------------------------------------------------
// Laws
// ---------------------------------------------------------------------------

proof fn lemma_tables_within_keys(v: TomlValue)
    ensures
        table_count(v) <= key_count(v) + 1,
        !(v is Table) ==> table_count(v) == 0,
    decreases v,
{
    match v {
        TomlValue::Table(t) => {
            assert(decreases_to!(v => t@));
            lemma_entries_tables_within_keys(t@);
        },
        _ => {},
    }
}

proof fn lemma_entries_tables_within_keys(es: Seq<(String, TomlValue)>)
    ensures
        tables_in(es) <= keys_in(es) + es.len(),
    decreases es,
{
    if es.len() > 0 {
        assert(decreases_to!(es => es.last()));
        lemma_entries_tables_within_keys(es.drop_last());
        lemma_tables_within_keys(es.last().1);
    }
}

/// Law: every table but the outermost is the value of some key, so a document
/// never has more tables than keys plus one.
pub proof fn law_toml_tables_within_keys(v: TomlValue)
    ensures
        table_count(v) <= key_count(v) + 1,
{
    lemma_tables_within_keys(v);
}

} // verus!
