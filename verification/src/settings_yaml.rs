//! YAML documents: key, scalar, sequence and mapping counts, nesting depth and
//! the type schema.

use vstd::prelude::*;

use crate::csv::same_chars;
use crate::sorted_map::{keys_sorted, lex_lt, put_sorted, sorted_put};
use crate::text::{chars_of, join_text};

verus! {

/// A parsed YAML value, as far as the metadata reads it: scalar kinds, string
/// texts (mapping keys are looked up by them), sequence items, mapping entries
/// in document order, and tagged values.
pub enum YamlValue {
    Null,
    Bool,
    Integer,
    Float,
    String(String),
    Sequence(Vec<YamlValue>),
    Mapping(Vec<(YamlValue, YamlValue)>),
    Tagged(Box<YamlValue>),
}

/// Type information of a value.
pub enum YamlTypeInfo {
    Scalar(String),
    Sequence(Box<YamlTypeInfo>),
    Mapping(Vec<(String, YamlTypeInfo)>),
}

/// Metadata of a YAML file.
pub struct YamlMetadata {
    pub file_size: Option<usize>,
    pub key_count: Option<usize>,
    pub max_depth: Option<usize>,
    pub scalar_count: Option<usize>,
    pub sequence_count: Option<usize>,
    pub map_count: Option<usize>,
    pub schema: Option<YamlTypeInfo>,
}

// ---------------------------------------------------------------------------
// The parser
// ---------------------------------------------------------------------------

#[verifier::external_type_specification]
#[verifier::external_body]
pub struct ExYamlValue(serde_yaml::Value);

/// The value `serde_yaml::from_slice` gives for a document, or the text of its
/// error.
pub uninterp spec fn yaml_document(content: Seq<u8>) -> Result<YamlValue, Seq<char>>;

/// Converts a parsed value, node for node (numbers by whether they are floats).
#[verifier::external_body]
fn yaml_value_of(v: serde_yaml::Value) -> YamlValue {
    match v {
        serde_yaml::Value::Null => YamlValue::Null,
        serde_yaml::Value::Bool(_) => YamlValue::Bool,
        serde_yaml::Value::Number(n) if n.is_f64() => YamlValue::Float,
        serde_yaml::Value::Number(_) => YamlValue::Integer,
        serde_yaml::Value::String(s) => YamlValue::String(s),
        serde_yaml::Value::Sequence(s) => YamlValue::Sequence(s.into_iter().map(yaml_value_of).collect()),
        serde_yaml::Value::Mapping(m) => YamlValue::Mapping(m.into_iter().map(|(k, v)| (yaml_value_of(k), yaml_value_of(v))).collect()),
        serde_yaml::Value::Tagged(t) => YamlValue::Tagged(Box::new(yaml_value_of(t.value))),
    }
}

/// `serde_yaml::from_slice` into a `serde_yaml::Value`; an error as its display
/// text.
#[verifier::external_body]
fn yaml_parse(content: &[u8]) -> (r: Result<YamlValue, String>)
    ensures
        match r {
            Ok(v) => yaml_document(content@) == Ok::<YamlValue, Seq<char>>(v),
            Err(e) => yaml_document(content@) == Err::<YamlValue, Seq<char>>(e@),
        },
{
    match serde_yaml::from_slice::<serde_yaml::Value>(content) {
        Ok(v) => Ok(yaml_value_of(v)),
        Err(e) => Err(e.to_string()),
    }
}

// ---------------------------------------------------------------------------
// Counts
// ---------------------------------------------------------------------------

/// Counts over a walk: keys, scalars, sequences, mappings.
pub struct Tally {
    pub keys: nat,
    pub scalars: nat,
    pub sequences: nat,
    pub maps: nat,
}

/// Sum of two tallies.
pub open spec fn plus(a: Tally, b: Tally) -> Tally {
    Tally {
        keys: a.keys + b.keys,
        scalars: a.scalars + b.scalars,
        sequences: a.sequences + b.sequences,
        maps: a.maps + b.maps,
    }
}

/// The empty tally.
pub open spec fn zero() -> Tally {
    Tally { keys: 0, scalars: 0, sequences: 0, maps: 0 }
}

/// What a walk counts in a value: each scalar, each sequence, each mapping and
/// its number of entries, through sequence items, mapping keys and values, and
/// tagged values.
pub open spec fn tally(v: YamlValue) -> Tally
    decreases v,
{
    match v {
        YamlValue::Sequence(items) => plus(
            Tally { keys: 0, scalars: 0, sequences: 1, maps: 0 },
            tally_items(items@),
        ),
        YamlValue::Mapping(es) => plus(
            Tally { keys: es@.len(), scalars: 0, sequences: 0, maps: 1 },
            tally_entries(es@),
        ),
        YamlValue::Tagged(b) => tally(*b),
        _ => Tally { keys: 0, scalars: 1, sequences: 0, maps: 0 },
    }
}

/// Tally over sequence items.
pub open spec fn tally_items(items: Seq<YamlValue>) -> Tally
    decreases items,
{
    if items.len() == 0 {
        zero()
    } else {
        proof {
            assert(decreases_to!(items => items.last()));
        }
        plus(tally_items(items.drop_last()), tally(items.last()))
    }
}

/// Tally over mapping keys and values.
pub open spec fn tally_entries(es: Seq<(YamlValue, YamlValue)>) -> Tally
    decreases es,
{
    if es.len() == 0 {
        zero()
    } else {
        proof {
            assert(decreases_to!(es => es.last()));
        }
        plus(plus(tally_entries(es.drop_last()), tally(es.last().0)), tally(es.last().1))
    }
}

/// Deepest node of a value found at depth `d` (items, keys and values one level
/// deeper, tagged values at the same depth).
pub open spec fn depth(d: nat, v: YamlValue) -> nat
    decreases v,
{
    match v {
        YamlValue::Sequence(items) => max_nat(d, depth_items(d + 1, items@)),
        YamlValue::Mapping(es) => max_nat(d, depth_entries(d + 1, es@)),
        YamlValue::Tagged(b) => max_nat(d, depth(d, *b)),
        _ => d,
    }
}

/// The larger of two numbers.
pub open spec fn max_nat(a: nat, b: nat) -> nat {
    if a >= b {
        a
    } else {
        b
    }
}

/// Deepest node among sequence items at depth `d` (0 for none).
pub open spec fn depth_items(d: nat, items: Seq<YamlValue>) -> nat
    decreases items,
{
    if items.len() == 0 {
        0
    } else {
        proof {
            assert(decreases_to!(items => items.last()));
        }
        max_nat(depth_items(d, items.drop_last()), depth(d, items.last()))
    }
}

/// Deepest node among mapping keys and values at depth `d` (0 for none).
pub open spec fn depth_entries(d: nat, es: Seq<(YamlValue, YamlValue)>) -> nat
    decreases es,
{
    if es.len() == 0 {
        0
    } else {
        proof {
            assert(decreases_to!(es => es.last()));
        }
        max_nat(
            max_nat(depth_entries(d, es.drop_last()), depth(d, es.last().0)),
            depth(d, es.last().1),
        )
    }
}

/// Running counters of a walk.
pub struct YamlCounts {
    pub key_count: usize,
    pub scalar_count: usize,
    pub sequence_count: usize,
    pub map_count: usize,
    pub max_depth: usize,
}

/// The counters as a tally.
pub open spec fn counted(c: YamlCounts) -> Tally {
    Tally { keys: c.key_count as nat, scalars: c.scalar_count as nat, sequences: c.sequence_count as nat, maps: c.map_count as nat }
}

/// Every count of a tally fits a `usize`.
pub open spec fn tally_fits(t: Tally) -> bool {
    t.keys <= usize::MAX && t.scalars <= usize::MAX && t.sequences <= usize::MAX && t.maps
        <= usize::MAX
}

/// Adds `t` to `c` with overflow checks; `false` when some count does not fit.
fn add_tally(c: &mut YamlCounts, keys: usize, scalars: usize, sequences: usize, maps: usize) -> (ok: bool)
    ensures
        ok == tally_fits(plus(counted(*old(c)), Tally { keys: keys as nat, scalars: scalars as nat, sequences: sequences as nat, maps: maps as nat })),
        ok ==> counted(*final(c)) == plus(counted(*old(c)), Tally { keys: keys as nat, scalars: scalars as nat, sequences: sequences as nat, maps: maps as nat }),
        final(c).max_depth == old(c).max_depth,
{
    if c.key_count > usize::MAX - keys || c.scalar_count > usize::MAX - scalars || c.sequence_count
        > usize::MAX - sequences || c.map_count > usize::MAX - maps {
        return false;
    }
    c.key_count = c.key_count + keys;
    c.scalar_count = c.scalar_count + scalars;
    c.sequence_count = c.sequence_count + sequences;
    c.map_count = c.map_count + maps;
    true
}

proof fn lemma_tally_items_prefix(items: Seq<YamlValue>, k: int)
    requires
        0 <= k <= items.len(),
    ensures
        ({
            let a = tally_items(items.take(k));
            let b = tally_items(items);
            a.keys <= b.keys && a.scalars <= b.scalars && a.sequences <= b.sequences && a.maps <= b.maps
        }),
    decreases items.len() - k,
{
    if k < items.len() {
        lemma_tally_items_prefix(items, k + 1);
        assert(items.take(k + 1).drop_last() =~= items.take(k));
    } else {
        assert(items.take(k) =~= items);
    }
}

proof fn lemma_tally_entries_prefix(es: Seq<(YamlValue, YamlValue)>, k: int)
    requires
        0 <= k <= es.len(),
    ensures
        ({
            let a = tally_entries(es.take(k));
            let b = tally_entries(es);
            a.keys <= b.keys && a.scalars <= b.scalars && a.sequences <= b.sequences && a.maps <= b.maps
        }),
    decreases es.len() - k,
{
    if k < es.len() {
        lemma_tally_entries_prefix(es, k + 1);
        assert(es.take(k + 1).drop_last() =~= es.take(k));
    } else {
        assert(es.take(k) =~= es);
    }
}

proof fn lemma_depth_items_prefix(d: nat, items: Seq<YamlValue>, k: int)
    requires
        0 <= k <= items.len(),
    ensures
        depth_items(d, items.take(k)) <= depth_items(d, items),
    decreases items.len() - k,
{
    if k < items.len() {
        lemma_depth_items_prefix(d, items, k + 1);
        assert(items.take(k + 1).drop_last() =~= items.take(k));
    } else {
        assert(items.take(k) =~= items);
    }
}

proof fn lemma_depth_entries_prefix(d: nat, es: Seq<(YamlValue, YamlValue)>, k: int)
    requires
        0 <= k <= es.len(),
    ensures
        depth_entries(d, es.take(k)) <= depth_entries(d, es),
    decreases es.len() - k,
{
    if k < es.len() {
        lemma_depth_entries_prefix(d, es, k + 1);
        assert(es.take(k + 1).drop_last() =~= es.take(k));
    } else {
        assert(es.take(k) =~= es);
    }
}

/// The walk fits: every count and the depth fit a `usize`.
pub open spec fn walk_fits(c: YamlCounts, v: YamlValue, d: nat) -> bool {
    tally_fits(plus(counted(c), tally(v))) && depth(d, v) <= usize::MAX
}

/// Walks a value found at depth `d`, adding its counts to `c` and raising the
/// deepest depth seen; `false` when a count or the depth does not fit.
fn walk(v: &YamlValue, d: usize, c: &mut YamlCounts) -> (ok: bool)
    ensures
        ok == walk_fits(*old(c), *v, d as nat),
        ok ==> counted(*final(c)) == plus(counted(*old(c)), tally(*v)),
        ok ==> final(c).max_depth == max_nat(old(c).max_depth as nat, depth(d as nat, *v)),
    decreases v,
{
    let ghost c0 = *c;
    if c.max_depth < d {
        c.max_depth = d;
    }
    match v {
        YamlValue::Sequence(items) => {
            assert(tally(*v) == plus(Tally { keys: 0, scalars: 0, sequences: 1, maps: 0 }, tally_items(items@)));
            if !add_tally(c, 0, 0, 1, 0) {
                return false;
            }
            if items.len() > 0 && d == usize::MAX {
                proof {
                    assert(depth((d + 1) as nat, items@.last()) >= d + 1);
                    assert(depth_items((d + 1) as nat, items@) >= depth((d + 1) as nat, items@.last()));
                    assert(depth(d as nat, *v) >= depth_items((d + 1) as nat, items@));
                }
                return false;
            }
            let ghost c1 = *c;
            let mut i: usize = 0;
            assert(items@.take(0) =~= Seq::<YamlValue>::empty());
            while i < items.len()
                invariant
                    i <= items.len(),
                    items.len() > 0 ==> d < usize::MAX,
                    *v == YamlValue::Sequence(*items),
                    c0 == *old(c),
                    counted(c1) == plus(counted(c0), Tally { keys: 0, scalars: 0, sequences: 1, maps: 0 }),
                    counted(*c) == plus(counted(c1), tally_items(items@.take(i as int))),
                    c.max_depth == max_nat(max_nat(c0.max_depth as nat, d as nat), depth_items((d + 1) as nat, items@.take(i as int))),
                decreases items.len() - i,
            {
                assert(items@.take(i + 1).drop_last() =~= items@.take(i as int));
                assert(items@.take(i + 1).last() == items@[i as int]);
                assert(decreases_to!(*v => items@[i as int])) by {
                    assert(decreases_to!(*v => (*v)->Sequence_0));
                    assert(decreases_to!((*v)->Sequence_0 => (*v)->Sequence_0@));
                }
                let ghost cb = *c;
                if !walk(&items[i], d + 1, c) {
                    proof {
                        let t1 = items@.take(i + 1);
                        lemma_tally_items_prefix(items@, i + 1);
                        lemma_depth_items_prefix((d + 1) as nat, items@, i + 1);
                        assert(tally_items(t1) == plus(tally_items(items@.take(i as int)), tally(items@[i as int])));
                        assert(depth_items((d + 1) as nat, t1) >= depth((d + 1) as nat, items@[i as int]));
                        assert(depth(d as nat, *v) >= depth_items((d + 1) as nat, items@));
                        assert(tally(*v) == plus(Tally { keys: 0, scalars: 0, sequences: 1, maps: 0 }, tally_items(items@)));
                        let small = plus(counted(cb), tally(items@[i as int]));
                        let big = plus(counted(c0), tally(*v));
                        assert(small.keys <= big.keys && small.scalars <= big.scalars && small.sequences <= big.sequences && small.maps <= big.maps);
                        assert(!walk_fits(c0, *v, d as nat));
                    }
                    return false;
                }
                i = i + 1;
            }
            assert(items@.take(i as int) =~= items@);
            true
        },
        YamlValue::Mapping(es) => {
            assert(tally(*v) == plus(Tally { keys: es@.len(), scalars: 0, sequences: 0, maps: 1 }, tally_entries(es@)));
            if !add_tally(c, es.len(), 0, 0, 1) {
                return false;
            }
            if es.len() > 0 && d == usize::MAX {
                proof {
                    assert(depth((d + 1) as nat, es@.last().0) >= d + 1);
                    assert(depth_entries((d + 1) as nat, es@) >= depth((d + 1) as nat, es@.last().0));
                    assert(depth(d as nat, *v) >= depth_entries((d + 1) as nat, es@));
                }
                return false;
            }
            let ghost c1 = *c;
            let mut i: usize = 0;
            assert(es@.take(0) =~= Seq::<(YamlValue, YamlValue)>::empty());
            while i < es.len()
                invariant
                    i <= es.len(),
                    es.len() > 0 ==> d < usize::MAX,
                    *v == YamlValue::Mapping(*es),
                    c0 == *old(c),
                    counted(c1) == plus(counted(c0), Tally { keys: es@.len(), scalars: 0, sequences: 0, maps: 1 }),
                    counted(*c) == plus(counted(c1), tally_entries(es@.take(i as int))),
                    c.max_depth == max_nat(max_nat(c0.max_depth as nat, d as nat), depth_entries((d + 1) as nat, es@.take(i as int))),
                decreases es.len() - i,
            {
                assert(es@.take(i + 1).drop_last() =~= es@.take(i as int));
                assert(es@.take(i + 1).last() == es@[i as int]);
                assert(decreases_to!(*v => es@[i as int].0)) by {
                    assert(decreases_to!(*v => (*v)->Mapping_0));
                    assert(decreases_to!((*v)->Mapping_0 => (*v)->Mapping_0@));
                    assert(decreases_to!((*v)->Mapping_0@ => (*v)->Mapping_0@[i as int]));
                }
                assert(decreases_to!(*v => es@[i as int].1)) by {
                    assert(decreases_to!(*v => (*v)->Mapping_0));
                    assert(decreases_to!((*v)->Mapping_0 => (*v)->Mapping_0@));
                    assert(decreases_to!((*v)->Mapping_0@ => (*v)->Mapping_0@[i as int]));
                }
                proof {
                    let t1 = es@.take(i + 1);
                    lemma_tally_entries_prefix(es@, i + 1);
                    lemma_depth_entries_prefix((d + 1) as nat, es@, i + 1);
                    assert(tally_entries(t1) == plus(plus(tally_entries(es@.take(i as int)), tally(es@[i as int].0)), tally(es@[i as int].1)));
                    assert(depth_entries((d + 1) as nat, t1) >= depth((d + 1) as nat, es@[i as int].0));
                    assert(depth_entries((d + 1) as nat, t1) >= depth((d + 1) as nat, es@[i as int].1));
                    assert(depth(d as nat, *v) >= depth_entries((d + 1) as nat, es@));
                }
                let ghost cb = *c;
                if !walk(&es[i].0, d + 1, c) {
                    proof {
                        let small = plus(counted(cb), tally(es@[i as int].0));
                        let big = plus(counted(c0), tally(*v));
                        assert(small.keys <= big.keys && small.scalars <= big.scalars && small.sequences <= big.sequences && small.maps <= big.maps);
                        assert(!walk_fits(c0, *v, d as nat));
                    }
                    return false;
                }
                let ghost ck = *c;
                if !walk(&es[i].1, d + 1, c) {
                    proof {
                        let small = plus(counted(ck), tally(es@[i as int].1));
                        let big = plus(counted(c0), tally(*v));
                        assert(small.keys <= big.keys && small.scalars <= big.scalars && small.sequences <= big.sequences && small.maps <= big.maps);
                        assert(!walk_fits(c0, *v, d as nat));
                    }
                    return false;
                }
                i = i + 1;
            }
            assert(es@.take(i as int) =~= es@);
            true
        },
        YamlValue::Tagged(b) => {
            assert(decreases_to!(*v => **b));
            walk(b, d, c)
        },
        _ => {
            assert(tally(*v) == Tally { keys: 0, scalars: 1, sequences: 0, maps: 0 });
            assert(depth(d as nat, *v) == d);
            add_tally(c, 0, 1, 0, 0)
        },
    }
}

// ---------------------------------------------------------------------------
// Type schema
// ---------------------------------------------------------------------------

/// `i` is the type information of `v`.
pub open spec fn describes(i: YamlTypeInfo, v: YamlValue) -> bool
    decreases v,
{
    match v {
        YamlValue::Null => i matches YamlTypeInfo::Scalar(s) && s@ == "null"@,
        YamlValue::Bool => i matches YamlTypeInfo::Scalar(s) && s@ == "boolean"@,
        YamlValue::Integer => i matches YamlTypeInfo::Scalar(s) && s@ == "integer"@,
        YamlValue::Float => i matches YamlTypeInfo::Scalar(s) && s@ == "float"@,
        YamlValue::String(_) => i matches YamlTypeInfo::Scalar(s) && s@ == "string"@,
        YamlValue::Sequence(items) => match i {
            YamlTypeInfo::Sequence(e) => if items@.len() == 0 {
                *e matches YamlTypeInfo::Scalar(s) && s@ == "unknown"@
            } else {
                proof {
                    assert(decreases_to!(items => items@));
                    assert(decreases_to!(items@ => items@[0]));
                }
                describes(*e, items@[0])
            },
            _ => false,
        },
        YamlValue::Mapping(es) => match i {
            YamlTypeInfo::Mapping(u) => schema_of_entries(u@, es@),
            _ => false,
        },
        YamlValue::Tagged(b) => describes(i, *b),
    }
}

/// `u` is what collecting the string-keyed entries of `es` into a sorted map,
/// in order, gives (non-string keys are left out; a later key replaces the
/// info of an equal earlier one).
pub open spec fn schema_of_entries(u: Seq<(String, YamlTypeInfo)>, es: Seq<(YamlValue, YamlValue)>) -> bool
    decreases es,
{
    if es.len() == 0 {
        u.len() == 0
    } else {
        proof {
            assert(decreases_to!(es => es.last()));
        }
        match es.last().0 {
            YamlValue::String(k) => exists|u0: Seq<(String, YamlTypeInfo)>, info: YamlTypeInfo|
                #![trigger sorted_put(u0, k, info)]
                schema_of_entries(u0, es.drop_last()) && keys_sorted(u0) && describes(info, es.last().1) && u
                    == sorted_put(u0, k, info),
            _ => schema_of_entries(u, es.drop_last()),
        }
    }
}

/// The type information of a value.
fn value_to_yaml_type_info(v: &YamlValue) -> (r: YamlTypeInfo)
    ensures
        describes(r, *v),
    decreases v,
{
    match v {
        YamlValue::Null => YamlTypeInfo::Scalar("null".to_owned()),
        YamlValue::Bool => YamlTypeInfo::Scalar("boolean".to_owned()),
        YamlValue::Integer => YamlTypeInfo::Scalar("integer".to_owned()),
        YamlValue::Float => YamlTypeInfo::Scalar("float".to_owned()),
        YamlValue::String(_) => YamlTypeInfo::Scalar("string".to_owned()),
        YamlValue::Sequence(items) => {
            if items.len() == 0 {
                YamlTypeInfo::Sequence(Box::new(YamlTypeInfo::Scalar("unknown".to_owned())))
            } else {
                assert(decreases_to!(*v => items@[0])) by {
                    assert(decreases_to!(*v => (*v)->Sequence_0));
                    assert(decreases_to!((*v)->Sequence_0 => (*v)->Sequence_0@));
                }
                YamlTypeInfo::Sequence(Box::new(value_to_yaml_type_info(&items[0])))
            }
        },
        YamlValue::Mapping(es) => {
            assert(decreases_to!(*v => *es)) by {
                assert(decreases_to!(*v => (*v)->Mapping_0));
            }
            YamlTypeInfo::Mapping(mapping_type_info(es))
        },
        YamlValue::Tagged(b) => {
            assert(decreases_to!(*v => **b));
            value_to_yaml_type_info(b)
        },
    }
}

/// The sorted map of string keys to the type information of their values.
fn mapping_type_info(es: &Vec<(YamlValue, YamlValue)>) -> (u: Vec<(String, YamlTypeInfo)>)
    ensures
        schema_of_entries(u@, es@),
    decreases es,
{
    let mut u: Vec<(String, YamlTypeInfo)> = Vec::new();
    let mut i: usize = 0;
    while i < es.len()
        invariant
            i <= es.len(),
            schema_of_entries(u@, es@.take(i as int)),
            keys_sorted(u@),
        decreases es.len() - i,
    {
        let ghost t1 = es@.take(i + 1);
        assert(t1.drop_last() =~= es@.take(i as int));
        assert(t1.last() == es@[i as int]);
        match &es[i].0 {
            YamlValue::String(k) => {
                assert(decreases_to!(*es => es@[i as int].1)) by {
                    assert(decreases_to!(*es => es@));
                    assert(decreases_to!(es@ => es@[i as int]));
                }
                let info = value_to_yaml_type_info(&es[i].1);
                let ghost u0 = u@;
                let ghost inf = info;
                put_sorted(&mut u, k.clone(), info);
                assert(schema_of_entries(u@, t1)) by {
                    assert(schema_of_entries(u0, t1.drop_last()) && keys_sorted(u0) && describes(inf, t1.last().1) && u@ == sorted_put(u0, *k, inf));
                }
            },
            _ => {},
        }
        i = i + 1;
    }
    assert(es@.take(i as int) =~= es@);
    u
}

// ---------------------------------------------------------------------------
// Metadata
// ---------------------------------------------------------------------------

/// `m` is the metadata of the document `v` of a file of `byte_count` bytes.
pub open spec fn yaml_metadata_of(m: YamlMetadata, v: YamlValue, byte_count: usize) -> bool {
    let t = tally(v);
    &&& m.file_size == Some(byte_count)
    &&& m.key_count == Some(t.keys as usize)
    &&& m.scalar_count == Some(t.scalars as usize)
    &&& m.sequence_count == Some(t.sequences as usize)
    &&& m.map_count == Some(t.maps as usize)
    &&& m.max_depth == Some(depth(0, v) as usize)
    &&& m.schema matches Some(i) && describes(i, v)
}

/// Extracts the metadata of a YAML document: key, scalar, sequence and mapping
/// counts, nesting depth, and the type schema.
pub fn extract_yaml_metadata(content: &[u8], byte_count: usize) -> (r: Result<YamlMetadata, String>)
    ensures
        match yaml_document(content@) {
            Err(e) => r is Err && r->Err_0@ == "YAML parse error: "@ + e,
            Ok(v) => if tally_fits(tally(v)) && depth(0, v) <= usize::MAX {
                r matches Ok(m) && yaml_metadata_of(m, v, byte_count)
            } else {
                r is Err && r->Err_0@ == "YAML document too large to count"@
            },
        },
{
    let value = match yaml_parse(content) {
        Ok(v) => v,
        Err(e) => return Err(join_text("YAML parse error: ", e.as_str())),
    };
    let mut c = YamlCounts { key_count: 0, scalar_count: 0, sequence_count: 0, map_count: 0, max_depth: 0 };
    let ghost c0 = c;
    if !walk(&value, 0, &mut c) {
        return Err("YAML document too large to count".to_owned());
    }
    assert(counted(c0) == zero());
    let schema = Some(value_to_yaml_type_info(&value));
    Ok(YamlMetadata {
        file_size: Some(byte_count),
        key_count: Some(c.key_count),
        max_depth: Some(c.max_depth),
        scalar_count: Some(c.scalar_count),
        sequence_count: Some(c.sequence_count),
        map_count: Some(c.map_count),
        schema,
    })
}

} // verus!
