//! Template mining for JSON documents: the rows of a document (the items of a
//! root array, a first row of strings taken as column headers; a root object;
//! or, where the whole text does not parse, each line that does), a pattern
//! per row in which values seen often at their key stay and the others become
//! `[VALUE]`, and templates grouping the rows by pattern with example values.

use vstd::prelude::*;

use crate::ini::all_lines;
use crate::json::{json_debug, json_debug_text, json_document, json_parse, JsonValue};
use crate::pickle::strings_view;
use crate::results::Template;
use crate::sentence_templates::{count_up, indexes, lemma_indexed_find, template_model, templates_model};
use crate::sorted_map::{entries_view, find_entry, find_key, find_key_from, insert_pos, insert_pos_from, lemma_find_key_from, map_get, map_put, put_entry};
use crate::text_patterns::examples_view;
use vstd::hash_map::StringHashMap;
use crate::text::{append_chars, char_vecs, chars_of, decimal, decimal_chars, lines, string_of};

verus! {

// ---------------------------------------------------------------------------
// Rows
// ---------------------------------------------------------------------------

/// The texts of strings, where every item is a string.
pub open spec fn all_strings(items: Seq<JsonValue>) -> Option<Seq<Seq<char>>>
    decreases items.len(),
{
    if items.len() == 0 {
        Some(Seq::empty())
    } else {
        match (all_strings(items.drop_last()), items.last()) {
            (Some(p), JsonValue::Str(t)) => Some(p.push(t@)),
            _ => None,
        }
    }
}

/// The rows of a parsed root value: the items of an array (after a first item
/// that is an array of strings, taken as headers), the object itself, or none.
pub open spec fn root_rows(v: JsonValue) -> (Seq<JsonValue>, Option<Seq<Seq<char>>>) {
    match v {
        JsonValue::Array(items) => if items@.len() == 0 {
            (Seq::empty(), None)
        } else {
            match items@[0] {
                JsonValue::Array(first) => match all_strings(first@) {
                    Some(h) => (items@.skip(1), Some(h)),
                    None => (items@, None),
                },
                _ => (items@, None),
            }
        },
        JsonValue::Object(_, _) => (seq![v], None),
        _ => (Seq::empty(), None),
    }
}

/// The values of the lines that parse, in order.
pub open spec fn line_values(ls: Seq<Seq<char>>) -> Seq<JsonValue>
    decreases ls.len(),
{
    if ls.len() == 0 {
        Seq::empty()
    } else {
        match json_document(ls.last()) {
            Some(v) => line_values(ls.drop_last()).push(v),
            None => line_values(ls.drop_last()),
        }
    }
}

/// The rows of a JSON text and its headers: from the whole text where it
/// parses, else the values of its lines that parse (no headers).
pub open spec fn spec_template_rows(text: Seq<char>) -> (Seq<JsonValue>, Option<Seq<Seq<char>>>) {
    match json_document(text) {
        Some(v) => root_rows(v),
        None => (line_values(lines(text)), None),
    }
}

/// The texts of the items, where every item is a string.
fn header_strings(items: &Vec<JsonValue>) -> (r: Option<Vec<String>>)
    ensures
        match r {
            Some(h) => all_strings(items@) == Some(strings_view(h@)),
            None => all_strings(items@) is None,
        },
{
    let mut h: Vec<String> = Vec::new();
    let mut i: usize = 0;
    while i < items.len()
        invariant
            i <= items.len(),
            all_strings(items@.take(i as int)) == Some(strings_view(h@)),
        decreases items.len() - i,
    {
        assert(items@.take(i + 1).drop_last() =~= items@.take(i as int));
        match &items[i] {
            JsonValue::Str(t) => {
                let ghost prev = h@;
                h.push(t.clone());
                assert(strings_view(h@) =~= strings_view(prev).push(t@));
            },
            _ => {
                proof {
                    lemma_all_strings_none(items@, i as int);
                }
                return None;
            },
        }
        i = i + 1;
    }
    assert(items@.take(i as int) =~= items@);
    Some(h)
}

proof fn lemma_all_strings_none(items: Seq<JsonValue>, i: int)
    requires
        0 <= i < items.len(),
        !(items[i] is Str),
    ensures
        all_strings(items) is None,
    decreases items.len() - i,
{
    if i < items.len() - 1 {
        lemma_all_strings_none(items.drop_last(), i);
    }
}

/// Reads the rows of a JSON text and the headers of a root array whose first
/// item is an array of strings.
pub fn json_template_rows(content: &str) -> (r: (Vec<JsonValue>, Option<Vec<String>>))
    ensures
        r.0@ == spec_template_rows(content@).0,
        match r.1 {
            Some(h) => spec_template_rows(content@).1 == Some(strings_view(h@)),
            None => spec_template_rows(content@).1 is None,
        },
{
    match json_parse(content) {
        Some(root) => {
            let ghost rv = root;
            match root {
                JsonValue::Array(mut items) => {
                    if items.len() == 0 {
                        return (items, None);
                    }
                    let headers = match &items[0] {
                        JsonValue::Array(first) => header_strings(first),
                        _ => None,
                    };
                    match headers {
                        Some(h) => {
                            let ghost iv = items@;
                            let _ = items.remove(0);
                            assert(items@ =~= iv.skip(1));
                            (items, Some(h))
                        },
                        None => (items, None),
                    }
                },
                JsonValue::Object(k, v) => {
                    let mut rows: Vec<JsonValue> = Vec::new();
                    rows.push(JsonValue::Object(k, v));
                    assert(rows@ =~= seq![rv]);
                    (rows, None)
                },
                _ => (Vec::new(), None),
            }
        },
        None => {
            let ls = all_lines(chars_of(content).as_slice());
            let ghost lv = char_vecs(ls@);
            let mut rows: Vec<JsonValue> = Vec::new();
            let mut i: usize = 0;
            while i < ls.len()
                invariant
                    i <= ls.len(),
                    lv == char_vecs(ls@),
                    lv == lines(content@),
                    rows@ == line_values(lv.take(i as int)),
                decreases ls.len() - i,
            {
                assert(lv.take(i + 1).drop_last() =~= lv.take(i as int));
                let line = string_of(ls[i].as_slice());
                match json_parse(line.as_str()) {
                    Some(v) => rows.push(v),
                    None => {},
                }
                i = i + 1;
            }
            assert(lv.take(i as int) =~= lv);
            (rows, None)
        },
    }
}

// ---------------------------------------------------------------------------
// Value texts
// ---------------------------------------------------------------------------

/// `"t"`.
pub open spec fn quoted(t: Seq<char>) -> Seq<char> {
    "\""@ + t + "\""@
}

/// `true` or `false`.
pub open spec fn bool_text(b: bool) -> Seq<char> {
    if b {
        "true"@
    } else {
        "false"@
    }
}

/// Short type name of a value.
pub open spec fn value_type(v: JsonValue) -> Seq<char> {
    match v {
        JsonValue::Str(_) => "str"@,
        JsonValue::Number(_) => "num"@,
        JsonValue::Bool(_) => "bool"@,
        JsonValue::Null => "null"@,
        JsonValue::Array(_) => "arr"@,
        JsonValue::Object(_, _) => "obj"@,
    }
}

/// A value as counted for its key: scalars as written (strings quoted), an
/// array as `[<type of its first item>:<length>]`, an object as `{<n> keys}`
/// (`[]` and `{}` when empty).
pub open spec fn freq_text(v: JsonValue) -> Seq<char> {
    match v {
        JsonValue::Str(t) => quoted(t@),
        JsonValue::Number(n) => n@,
        JsonValue::Bool(b) => bool_text(b),
        JsonValue::Null => "null"@,
        JsonValue::Array(a) => if a@.len() == 0 {
            "[]"@
        } else {
            "["@ + value_type(a@[0]) + ":"@ + decimal(a@.len()) + "]"@
        },
        JsonValue::Object(_, vs) => if vs@.len() == 0 {
            "{}"@
        } else {
            "{"@ + decimal(vs@.len()) + " keys}"@
        },
    }
}

/// A value as shown in a pattern: scalars as written (strings quoted), an
/// array as `[<n> items]`, an object as `{<n> keys}` (`[]` and `{}` when empty).
pub open spec fn pattern_text(v: JsonValue) -> Seq<char> {
    match v {
        JsonValue::Array(a) => if a@.len() == 0 {
            "[]"@
        } else {
            "["@ + decimal(a@.len()) + " items]"@
        },
        _ => freq_text(v),
    }
}

/// A value as an example: a string's text, a scalar as written, a container in
/// serde_json's `Debug` form.
pub open spec fn example_text(v: JsonValue) -> Seq<char> {
    match v {
        JsonValue::Str(t) => t@,
        JsonValue::Number(n) => n@,
        JsonValue::Bool(b) => bool_text(b),
        JsonValue::Null => "null"@,
        _ => json_debug_text(v),
    }
}

/// The key of array item `idx`: its header, else `col_<idx>` past the headers,
/// or `pos_<idx>` without headers.
pub open spec fn array_key(idx: nat, headers: Option<Seq<Seq<char>>>) -> Seq<char> {
    match headers {
        Some(h) => if idx < h.len() {
            h[idx as int]
        } else {
            "col_"@ + decimal(idx)
        },
        None => "pos_"@ + decimal(idx),
    }
}

/// The keyed fields of a row: an object's keys with their values, an array's
/// items under their array keys, nothing for a scalar.
pub open spec fn row_fields(row: JsonValue, headers: Option<Seq<Seq<char>>>) -> Seq<(Seq<char>, JsonValue)> {
    match row {
        JsonValue::Object(ks, vs) => Seq::new(
            if ks@.len() < vs@.len() {
                ks@.len()
            } else {
                vs@.len()
            },
            |i: int| (ks@[i]@, vs@[i]),
        ),
        JsonValue::Array(items) => Seq::new(items@.len(), |i: int| (array_key(i as nat, headers), items@[i])),
        _ => Seq::empty(),
    }
}

fn push_str(out: &mut Vec<char>, s: &str)
    ensures
        final(out)@ == old(out)@ + s@,
{
    append_chars(out, chars_of(s).as_slice());
}

/// Short type name of a value.
fn get_value_type(v: &JsonValue) -> (r: String)
    ensures
        r@ == value_type(*v),
{
    let t = match v {
        JsonValue::Str(_) => "str",
        JsonValue::Number(_) => "num",
        JsonValue::Bool(_) => "bool",
        JsonValue::Null => "null",
        JsonValue::Array(_) => "arr",
        JsonValue::Object(_, _) => "obj",
    };
    t.to_string()
}

/// A value as counted for its key.
fn format_json_value_for_freq(v: &JsonValue) -> (r: String)
    ensures
        r@ == freq_text(*v),
{
    let mut out: Vec<char> = Vec::new();
    match v {
        JsonValue::Str(t) => {
            push_str(&mut out, "\"");
            push_str(&mut out, t.as_str());
            push_str(&mut out, "\"");
        },
        JsonValue::Number(n) => push_str(&mut out, n.as_str()),
        JsonValue::Bool(b) => push_str(&mut out, if *b { "true" } else { "false" }),
        JsonValue::Null => push_str(&mut out, "null"),
        JsonValue::Array(a) => {
            if a.len() == 0 {
                push_str(&mut out, "[]");
            } else {
                push_str(&mut out, "[");
                let t = get_value_type(&a[0]);
                push_str(&mut out, t.as_str());
                push_str(&mut out, ":");
                append_chars(&mut out, decimal_chars(a.len()).as_slice());
                push_str(&mut out, "]");
            }
        },
        JsonValue::Object(_, vs) => {
            if vs.len() == 0 {
                push_str(&mut out, "{}");
            } else {
                push_str(&mut out, "{");
                append_chars(&mut out, decimal_chars(vs.len()).as_slice());
                push_str(&mut out, " keys}");
            }
        },
    }
    string_of(out.as_slice())
}

/// A value as shown in a pattern.
fn format_json_value(v: &JsonValue) -> (r: String)
    ensures
        r@ == pattern_text(*v),
{
    match v {
        JsonValue::Array(a) => {
            let mut out: Vec<char> = Vec::new();
            if a.len() == 0 {
                push_str(&mut out, "[]");
            } else {
                push_str(&mut out, "[");
                append_chars(&mut out, decimal_chars(a.len()).as_slice());
                push_str(&mut out, " items]");
            }
            string_of(out.as_slice())
        },
        _ => format_json_value_for_freq(v),
    }
}

/// A value as an example.
fn example_value_text(v: &JsonValue) -> (r: String)
    ensures
        r@ == example_text(*v),
{
    match v {
        JsonValue::Str(t) => t.clone(),
        JsonValue::Number(n) => n.clone(),
        JsonValue::Bool(b) => if *b { "true".to_string() } else { "false".to_string() },
        JsonValue::Null => "null".to_string(),
        _ => json_debug(v),
    }
}

/// The key of array item `idx`.
fn get_array_key(idx: usize, headers: Option<&Vec<String>>) -> (r: String)
    ensures
        r@ == array_key(idx as nat, match headers {
            Some(h) => Some(strings_view(h@)),
            None => None,
        }),
{
    let mut out: Vec<char> = Vec::new();
    match headers {
        Some(h) => {
            if idx < h.len() {
                return h[idx].clone();
            }
            push_str(&mut out, "col_");
        },
        None => push_str(&mut out, "pos_"),
    }
    append_chars(&mut out, decimal_chars(idx).as_slice());
    string_of(out.as_slice())
}

// ---------------------------------------------------------------------------
// Key/value counts
// ---------------------------------------------------------------------------

/// Counts one more value text `t` under key `k` (keys in order of first
/// occurrence; counts held at `usize::MAX`).
pub open spec fn tally_pair(u: Seq<(Seq<char>, Map<Seq<char>, usize>)>, k: Seq<char>, t: Seq<char>) -> Seq<(Seq<char>, Map<Seq<char>, usize>)> {
    let j = find_key(u, k);
    if j < u.len() {
        let m = u[j].1;
        u.update(j, (k, m.insert(t, if m.contains_key(t) { count_up(m[t]) } else { 1usize })))
    } else {
        u.push((k, Map::<Seq<char>, usize>::empty().insert(t, 1usize)))
    }
}

/// The fields counted.
pub open spec fn tally_fields(u: Seq<(Seq<char>, Map<Seq<char>, usize>)>, fs: Seq<(Seq<char>, JsonValue)>) -> Seq<(Seq<char>, Map<Seq<char>, usize>)>
    decreases fs.len(),
{
    if fs.len() == 0 {
        u
    } else {
        tally_pair(tally_fields(u, fs.drop_last()), fs.last().0, freq_text(fs.last().1))
    }
}

/// How often each key has each value text over the rows.
pub open spec fn key_value_counts(rows: Seq<JsonValue>, headers: Option<Seq<Seq<char>>>) -> Seq<(Seq<char>, Map<Seq<char>, usize>)>
    decreases rows.len(),
{
    if rows.len() == 0 {
        Seq::empty()
    } else {
        tally_fields(key_value_counts(rows.drop_last(), headers), row_fields(rows.last(), headers))
    }
}

/// The count of value text `t` under key `k`, where counted.
pub open spec fn counted(u: Seq<(Seq<char>, Map<Seq<char>, usize>)>, k: Seq<char>, t: Seq<char>) -> Option<usize> {
    let j = find_key(u, k);
    if j < u.len() && u[j].1.contains_key(t) {
        Some(u[j].1[t])
    } else {
        None
    }
}

/// The model of the counts.
pub open spec fn counts_view(u: Seq<(String, StringHashMap<usize>)>) -> Seq<(Seq<char>, Map<Seq<char>, usize>)> {
    u.map_values(|e: (String, StringHashMap<usize>)| (e.0@, e.1@))
}

/// Counts one more value text `t` under key `k`.
fn tally_key_value(m: &mut StringHashMap<usize>, u: &mut Vec<(String, StringHashMap<usize>)>, k: String, t: String)
    requires
        indexes(old(m)@, counts_view(old(u)@)),
    ensures
        indexes(final(m)@, counts_view(final(u)@)),
        counts_view(final(u)@) == tally_pair(counts_view(old(u)@), k@, t@),
{
    let ghost e = counts_view(u@);
    proof {
        lemma_indexed_find(m@, e, k@);
    }
    match m.get(k.as_str()) {
        Some(jr) => {
            let j = *jr;
            let c = match u[j].1.get(t.as_str()) {
                Some(c) => if *c < usize::MAX {
                    *c + 1
                } else {
                    *c
                },
                None => 1,
            };
            let ghost inner = e[j as int].1;
            u[j].1.insert(t, c);
            assert(counts_view(u@) =~= e.update(j as int, (k@, inner.insert(t@, c))));
        },
        None => {
            let len = u.len();
            let mut inner: StringHashMap<usize> = StringHashMap::new();
            let ghost tv = t@;
            inner.insert(t, 1);
            u.push((k.clone(), inner));
            m.insert(k, len);
            assert(counts_view(u@) =~= e.push((k@, Map::<Seq<char>, usize>::empty().insert(tv, 1usize))));
            assert forall|i: int| 0 <= i < counts_view(u@).len() implies #[trigger] m@.contains_key(
                counts_view(u@)[i].0,
            ) && m@[counts_view(u@)[i].0] == i by {
                if i < e.len() {
                    assert(old(m)@.contains_key(e[i].0));
                }
            }
        },
    }
}

/// The model of optional headers.
pub open spec fn headers_view(h: Option<&Vec<String>>) -> Option<Seq<Seq<char>>> {
    match h {
        Some(v) => Some(strings_view(v@)),
        None => None,
    }
}

/// The key of field `i` of a row and its value (the row being an object or an
/// array with that field).
fn field_at<'a>(row: &'a JsonValue, i: usize, headers: Option<&Vec<String>>) -> (r: (String, &'a JsonValue))
    requires
        0 <= i < row_fields(*row, headers_view(headers)).len(),
    ensures
        (r.0@, *r.1) == row_fields(*row, headers_view(headers))[i as int],
{
    match row {
        JsonValue::Object(ks, vs) => (ks[i].clone(), &vs[i]),
        JsonValue::Array(items) => (get_array_key(i, headers), &items[i]),
        _ => {
            assert(false);
            (String::new(), row)
        },
    }
}

/// Number of fields of a row.
fn field_count(row: &JsonValue) -> (n: usize)
    ensures
        forall|h: Option<Seq<Seq<char>>>| n == #[trigger] row_fields(*row, h).len(),
{
    match row {
        JsonValue::Object(ks, vs) => if ks.len() < vs.len() {
            ks.len()
        } else {
            vs.len()
        },
        JsonValue::Array(items) => items.len(),
        _ => 0,
    }
}

/// Counts how often each key has each value text over the rows.
fn collect_json_frequencies(rows: &[JsonValue], headers: Option<&Vec<String>>) -> (r: (StringHashMap<usize>, Vec<(String, StringHashMap<usize>)>))
    ensures
        indexes(r.0@, counts_view(r.1@)),
        counts_view(r.1@) == key_value_counts(rows@, headers_view(headers)),
{
    let ghost hv = headers_view(headers);
    let mut m: StringHashMap<usize> = StringHashMap::new();
    let mut u: Vec<(String, StringHashMap<usize>)> = Vec::new();
    let mut r: usize = 0;
    while r < rows.len()
        invariant
            r <= rows.len(),
            hv == headers_view(headers),
            indexes(m@, counts_view(u@)),
            counts_view(u@) == key_value_counts(rows@.take(r as int), hv),
        decreases rows.len() - r,
    {
        assert(rows@.take(r + 1).drop_last() =~= rows@.take(r as int));
        let ghost start = counts_view(u@);
        let ghost fs = row_fields(rows@[r as int], hv);
        let n = field_count(&rows[r]);
        let mut i: usize = 0;
        while i < n
            invariant
                i <= n,
                r < rows.len(),
                n == fs.len(),
                hv == headers_view(headers),
                fs == row_fields(rows@[r as int], hv),
                indexes(m@, counts_view(u@)),
                counts_view(u@) == tally_fields(start, fs.take(i as int)),
            decreases n - i,
        {
            assert(fs.take(i + 1).drop_last() =~= fs.take(i as int));
            let (k, v) = field_at(&rows[r], i, headers);
            let t = format_json_value_for_freq(v);
            tally_key_value(&mut m, &mut u, k, t);
            i = i + 1;
        }
        assert(fs.take(i as int) =~= fs);
        r = r + 1;
    }
    assert(rows@.take(r as int) =~= rows@);
    (m, u)
}

// ---------------------------------------------------------------------------
// Patterns
// ---------------------------------------------------------------------------

/// Parts joined with `, `.
pub open spec fn comma_joined(parts: Seq<Seq<char>>) -> Seq<char>
    decreases parts.len(),
{
    if parts.len() == 0 {
        Seq::empty()
    } else if parts.len() == 1 {
        parts[0]
    } else {
        comma_joined(parts.drop_last()) + ", "@ + parts.last()
    }
}

/// The pattern part of a field: `"key": ` and its value where that value text
/// comes under that key at least `threshold` times, else `[VALUE]`.
pub open spec fn part_text(u: Seq<(Seq<char>, Map<Seq<char>, usize>)>, threshold: usize, f: (Seq<char>, JsonValue)) -> Seq<char> {
    let is_static = match counted(u, f.0, freq_text(f.1)) {
        Some(c) => c >= threshold,
        None => false,
    };
    quoted(f.0) + ": "@ + (if is_static {
        pattern_text(f.1)
    } else {
        "[VALUE]"@
    })
}

/// The pattern of a row: its field parts in braces (object) or brackets
/// (array), or `[VALUE]` for a scalar.
pub open spec fn row_pattern(u: Seq<(Seq<char>, Map<Seq<char>, usize>)>, threshold: usize, row: JsonValue, headers: Option<Seq<Seq<char>>>) -> Seq<char> {
    let parts = row_fields(row, headers).map_values(|f: (Seq<char>, JsonValue)| part_text(u, threshold, f));
    match row {
        JsonValue::Object(_, _) => "{"@ + comma_joined(parts) + "}"@,
        JsonValue::Array(_) => "["@ + comma_joined(parts) + "]"@,
        _ => "[VALUE]"@,
    }
}

/// The count of a value text under a key, where counted.
fn lookup_count(m: &StringHashMap<usize>, u: &Vec<(String, StringHashMap<usize>)>, k: &String, t: &String) -> (r: Option<usize>)
    requires
        indexes(m@, counts_view(u@)),
    ensures
        r == counted(counts_view(u@), k@, t@),
{
    proof {
        lemma_indexed_find(m@, counts_view(u@), k@);
    }
    match m.get(k.as_str()) {
        Some(jr) => {
            let j = *jr;
            match u[j].1.get(t.as_str()) {
                Some(c) => Some(*c),
                None => None,
            }
        },
        None => None,
    }
}

/// The pattern of a row.
fn extract_json_pattern(
    row: &JsonValue,
    m: &StringHashMap<usize>,
    u: &Vec<(String, StringHashMap<usize>)>,
    threshold: usize,
    headers: Option<&Vec<String>>,
) -> (r: String)
    requires
        indexes(m@, counts_view(u@)),
    ensures
        r@ == row_pattern(counts_view(u@), threshold, *row, headers_view(headers)),
{
    let ghost hv = headers_view(headers);
    let ghost cu = counts_view(u@);
    let ghost fs = row_fields(*row, hv);
    let ghost parts = fs.map_values(|f: (Seq<char>, JsonValue)| part_text(cu, threshold, f));
    let (open, close) = match row {
        JsonValue::Object(_, _) => ("{", "}"),
        JsonValue::Array(_) => ("[", "]"),
        _ => return "[VALUE]".to_string(),
    };
    let n = field_count(row);
    let mut body: Vec<char> = Vec::new();
    let mut i: usize = 0;
    while i < n
        invariant
            i <= n,
            n == fs.len(),
            fs == row_fields(*row, hv),
            hv == headers_view(headers),
            cu == counts_view(u@),
            indexes(m@, counts_view(u@)),
            parts == fs.map_values(|f: (Seq<char>, JsonValue)| part_text(cu, threshold, f)),
            body@ == comma_joined(parts.take(i as int)),
        decreases n - i,
    {
        assert(parts.take(i + 1).drop_last() =~= parts.take(i as int));
        let (k, v) = field_at(row, i, headers);
        let t = format_json_value_for_freq(v);
        let is_static = match lookup_count(m, u, &k, &t) {
            Some(c) => c >= threshold,
            None => false,
        };
        if i > 0 {
            push_str(&mut body, ", ");
        }
        push_str(&mut body, "\"");
        push_str(&mut body, k.as_str());
        push_str(&mut body, "\": ");
        if is_static {
            let pv = format_json_value(v);
            push_str(&mut body, pv.as_str());
        } else {
            push_str(&mut body, "[VALUE]");
        }
        proof {
            reveal_strlit("\"");
            reveal_strlit("\": ");
            reveal_strlit(": ");
            assert("\": "@ =~= "\""@ + ": "@);
            assert(parts[i as int] == part_text(cu, threshold, fs[i as int]));
        }
        i = i + 1;
        assert(body@ =~= comma_joined(parts.take(i as int)));
    }
    assert(parts.take(i as int) =~= parts);
    let mut out: Vec<char> = Vec::new();
    push_str(&mut out, open);
    append_chars(&mut out, body.as_slice());
    push_str(&mut out, close);
    string_of(out.as_slice())
}

// ---------------------------------------------------------------------------
// Groups and templates
// ---------------------------------------------------------------------------

/// Row `r` added to the group of pattern `k` (groups in order of first
/// occurrence, rows in order within a group).
pub open spec fn add_row(g: Seq<(Seq<char>, Seq<nat>)>, k: Seq<char>, r: nat) -> Seq<(Seq<char>, Seq<nat>)> {
    let j = find_key(g, k);
    if j < g.len() {
        g.update(j, (k, g[j].1.push(r)))
    } else {
        g.push((k, seq![r]))
    }
}

/// The first `n` rows grouped by their patterns.
pub open spec fn row_groups(
    rows: Seq<JsonValue>,
    u: Seq<(Seq<char>, Map<Seq<char>, usize>)>,
    threshold: usize,
    headers: Option<Seq<Seq<char>>>,
    n: nat,
) -> Seq<(Seq<char>, Seq<nat>)>
    decreases n,
{
    if n == 0 {
        Seq::empty()
    } else {
        add_row(row_groups(rows, u, threshold, headers, (n - 1) as nat), row_pattern(u, threshold, rows[n - 1], headers), (n - 1) as nat)
    }
}

/// `v` added to the examples of placeholder `ph` where it is new and the list
/// has fewer than `max` examples (the placeholder is listed either way).
pub open spec fn add_example(ex: Seq<(Seq<char>, Seq<Seq<char>>)>, ph: Seq<char>, v: Seq<char>, max: nat) -> Seq<(Seq<char>, Seq<Seq<char>>)> {
    let cur = match map_get(ex, ph) {
        Some(c) => c,
        None => Seq::empty(),
    };
    map_put(ex, ph, if !cur.contains(v) && cur.len() < max { cur.push(v) } else { cur })
}

/// The examples of the fields, each under `<key>_VALUE`.
pub open spec fn field_examples(ex: Seq<(Seq<char>, Seq<Seq<char>>)>, fs: Seq<(Seq<char>, JsonValue)>, max: nat) -> Seq<(Seq<char>, Seq<Seq<char>>)>
    decreases fs.len(),
{
    if fs.len() == 0 {
        ex
    } else {
        let f = fs.last();
        add_example(field_examples(ex, fs.drop_last(), max), f.0 + "_VALUE"@, example_text(f.1), max)
    }
}

/// The examples of a row: its fields', or the row itself under `VALUE` for a
/// scalar.
pub open spec fn row_examples(ex: Seq<(Seq<char>, Seq<Seq<char>>)>, row: JsonValue, headers: Option<Seq<Seq<char>>>, max: nat) -> Seq<(Seq<char>, Seq<Seq<char>>)> {
    match row {
        JsonValue::Object(_, _) => field_examples(ex, row_fields(row, headers), max),
        JsonValue::Array(_) => field_examples(ex, row_fields(row, headers), max),
        _ => add_example(ex, "VALUE"@, example_text(row), max),
    }
}

/// The examples of the first `k` of the given rows.
pub open spec fn group_examples(rows: Seq<JsonValue>, idx: Seq<nat>, k: nat, headers: Option<Seq<Seq<char>>>, max: nat) -> Seq<(Seq<char>, Seq<Seq<char>>)>
    decreases k,
{
    if k == 0 {
        Seq::empty()
    } else {
        row_examples(group_examples(rows, idx, (k - 1) as nat, headers, max), rows[idx[k - 1] as int], headers, max)
    }
}

/// The templates of the rows: one per pattern, in order of first occurrence,
/// with the number of rows of that pattern and the examples of its first
/// `max_sample_lines` rows (at most `max_examples` per placeholder).
pub open spec fn spec_json_templates(
    rows: Seq<JsonValue>,
    headers: Option<Seq<Seq<char>>>,
    threshold: usize,
    max_examples: usize,
    max_sample_lines: usize,
) -> Seq<(Seq<char>, usize, Seq<(Seq<char>, Seq<Seq<char>>)>)> {
    let u = key_value_counts(rows, headers);
    let gs = row_groups(rows, u, threshold, headers, rows.len());
    gs.map_values(
        |g: (Seq<char>, Seq<nat>)|
            (
                g.0,
                g.1.len() as usize,
                group_examples(rows, g.1, if g.1.len() < max_sample_lines {
                    g.1.len()
                } else {
                    max_sample_lines as nat
                }, headers, max_examples as nat),
            ),
    )
}

/// Every row index of the groups is below `n`.
pub open spec fn indices_below(g: Seq<(Seq<char>, Seq<nat>)>, n: nat) -> bool {
    forall|a: int, b: int| 0 <= a < g.len() && 0 <= b < g[a].1.len() ==> #[trigger] g[a].1[b] < n
}

proof fn lemma_add_row_below(g: Seq<(Seq<char>, Seq<nat>)>, k: Seq<char>, r: nat, n: nat)
    requires
        indices_below(g, n),
        r < n,
    ensures
        indices_below(add_row(g, k, r), n),
{
    lemma_find_key_from(g, k, 0);
    let j = find_key(g, k);
    let h = add_row(g, k, r);
    assert forall|a: int, b: int| 0 <= a < h.len() && 0 <= b < h[a].1.len() implies #[trigger] h[a].1[b] < n by {
        if j < g.len() && a == j {
            if b < g[a].1.len() {
                assert(h[a].1[b] == g[a].1[b]);
            }
        } else if a < g.len() {
            assert(h[a] == g[a]);
        }
    }
}

/// Models of row groups.
pub open spec fn row_groups_view(g: Seq<(String, Vec<usize>)>) -> Seq<(Seq<char>, Seq<nat>)> {
    g.map_values(|e: (String, Vec<usize>)| (e.0@, e.1@.map_values(|x: usize| x as nat)))
}

/// Adds row `r` to the group of its pattern.
fn add_row_to_group(m: &mut StringHashMap<usize>, groups: &mut Vec<(String, Vec<usize>)>, k: String, r: usize)
    requires
        indexes(old(m)@, row_groups_view(old(groups)@)),
    ensures
        indexes(final(m)@, row_groups_view(final(groups)@)),
        row_groups_view(final(groups)@) == add_row(row_groups_view(old(groups)@), k@, r as nat),
{
    let ghost g = row_groups_view(groups@);
    proof {
        lemma_indexed_find(m@, g, k@);
    }
    match m.get(k.as_str()) {
        Some(jr) => {
            let j = *jr;
            groups[j].1.push(r);
            assert(groups@[j as int].1@.map_values(|x: usize| x as nat) =~= g[j as int].1.push(r as nat));
            assert(row_groups_view(groups@) =~= g.update(j as int, (k@, g[j as int].1.push(r as nat))));
        },
        None => {
            let len = groups.len();
            let mut one: Vec<usize> = Vec::new();
            one.push(r);
            assert(one@.map_values(|x: usize| x as nat) =~= seq![r as nat]);
            groups.push((k.clone(), one));
            m.insert(k, len);
            assert(row_groups_view(groups@) =~= g.push((k@, seq![r as nat])));
            assert forall|i: int| 0 <= i < row_groups_view(groups@).len() implies #[trigger] m@.contains_key(
                row_groups_view(groups@)[i].0,
            ) && m@[row_groups_view(groups@)[i].0] == i by {
                if i < g.len() {
                    assert(old(m)@.contains_key(g[i].0));
                }
            }
        },
    }
}

/// Entries with the same keys are searched alike.
proof fn lemma_same_keys<A, B>(a: Seq<(Seq<char>, A)>, b: Seq<(Seq<char>, B)>, k: Seq<char>, i: int)
    requires
        a.len() == b.len(),
        forall|q: int| 0 <= q < a.len() ==> #[trigger] a[q].0 == b[q].0,
        0 <= i <= a.len(),
    ensures
        find_key_from(a, k, i) == find_key_from(b, k, i),
        insert_pos_from(a, k, i) == insert_pos_from(b, k, i),
    decreases a.len() - i,
{
    if i < a.len() {
        assert(a[i].0 == b[i].0);
        lemma_same_keys(a, b, k, i + 1);
    }
}

/// Examples as entries with their string lists.
pub open spec fn example_of(e: (Seq<char>, Seq<String>)) -> (Seq<char>, Seq<Seq<char>>) {
    (e.0, strings_view(e.1))
}

/// Setting a key and then reading the lists as texts is reading and then setting.
proof fn lemma_put_examples(u: Seq<(Seq<char>, Seq<String>)>, k: Seq<char>, v: Seq<String>)
    ensures
        map_put(u, k, v).map_values(|e: (Seq<char>, Seq<String>)| example_of(e)) == map_put(
            u.map_values(|e: (Seq<char>, Seq<String>)| example_of(e)),
            k,
            strings_view(v),
        ),
{
    let w = u.map_values(|e: (Seq<char>, Seq<String>)| example_of(e));
    assert forall|q: int| 0 <= q < u.len() implies #[trigger] u[q].0 == w[q].0 by {}
    lemma_same_keys(u, w, k, 0);
    lemma_find_key_from(u, k, 0);
    let j = find_key(u, k);
    if j < u.len() {
        assert(map_put(u, k, v).map_values(|e: (Seq<char>, Seq<String>)| example_of(e)) =~= w.update(
            j,
            (k, strings_view(v)),
        ));
    } else {
        let p = insert_pos(u, k);
        lemma_insert_pos_bounds(u, k);
        assert(map_put(u, k, v).map_values(|e: (Seq<char>, Seq<String>)| example_of(e)) =~= w.insert(
            p,
            (k, strings_view(v)),
        ));
    }
}

proof fn lemma_insert_pos_bounds<V>(u: Seq<(Seq<char>, V)>, k: Seq<char>)
    ensures
        0 <= insert_pos(u, k) <= u.len(),
{
    lemma_insert_pos_from_bounds(u, k, 0);
}

proof fn lemma_insert_pos_from_bounds<V>(u: Seq<(Seq<char>, V)>, k: Seq<char>, i: int)
    requires
        0 <= i <= u.len(),
    ensures
        i <= insert_pos_from(u, k, i) <= u.len(),
    decreases u.len() - i,
{
    if i < u.len() {
        lemma_insert_pos_from_bounds(u, k, i + 1);
    }
}

/// Adds an example value under a placeholder.
fn add_example_value(ex: &mut Vec<(String, Vec<String>)>, ph: String, v: String, max: usize)
    ensures
        examples_view(final(ex)@) == add_example(examples_view(old(ex)@), ph@, v@, max as nat),
{
    let ghost e = examples_view(ex@);
    let ghost ev = entries_view(ex@);
    let j = find_entry(ex, &ph);
    let mut cur: Vec<String> = if j < ex.len() {
        ex[j].1.clone()
    } else {
        Vec::new()
    };
    proof {
        assert(e =~= ev.map_values(|x: (Seq<char>, Seq<String>)| example_of(x)));
        assert forall|q: int| 0 <= q < ev.len() implies #[trigger] ev[q].0 == e[q].0 by {}
        lemma_same_keys(ev, e, ph@, 0);
        if j < ex.len() {
            assert(e[j as int].1 == strings_view(ex@[j as int].1@));
            assert(strings_view(cur@) == strings_view(ex@[j as int].1@)) by {
                assert(cur@ == ex@[j as int].1@);
            }
        } else {
            assert(strings_view(cur@) =~= Seq::<Seq<char>>::empty());
        }
        assert(strings_view(cur@) == (match map_get(e, ph@) {
            Some(c) => c,
            None => Seq::empty(),
        }));
    }
    let ghost cv = strings_view(cur@);
    let mut present = false;
    let mut q: usize = 0;
    while q < cur.len()
        invariant
            q <= cur.len(),
            cv == strings_view(cur@),
            present == (exists|w: int| 0 <= w < q && cv[w] == v@),
        decreases cur.len() - q,
    {
        assert(cv[q as int] == cur@[q as int]@);
        if cur[q] == v {
            present = true;
        }
        q = q + 1;
    }
    assert(present == cv.contains(v@));
    if !present && cur.len() < max {
        let ghost vv = v@;
        cur.push(v);
        assert(strings_view(cur@) =~= cv.push(vv));
    }
    let ghost phv = ph@;
    let ghost curv = cur@;
    put_entry(ex, ph, cur);
    proof {
        lemma_put_examples(ev, phv, curv);
        assert(examples_view(ex@) =~= entries_view(ex@).map_values(|x: (Seq<char>, Seq<String>)| example_of(x)));
    }
}

/// Adds the examples of one row.
fn extract_json_examples(row: &JsonValue, ex: &mut Vec<(String, Vec<String>)>, headers: Option<&Vec<String>>, max: usize)
    ensures
        examples_view(final(ex)@) == row_examples(examples_view(old(ex)@), *row, headers_view(headers), max as nat),
{
    let ghost hv = headers_view(headers);
    match row {
        JsonValue::Object(_, _) => {},
        JsonValue::Array(_) => {},
        _ => {
            let t = example_value_text(row);
            add_example_value(ex, "VALUE".to_string(), t, max);
            return;
        },
    }
    let ghost start = examples_view(ex@);
    let ghost fs = row_fields(*row, hv);
    let n = field_count(row);
    let mut i: usize = 0;
    while i < n
        invariant
            i <= n,
            n == fs.len(),
            fs == row_fields(*row, hv),
            hv == headers_view(headers),
            start == examples_view(old(ex)@),
            examples_view(ex@) == field_examples(start, fs.take(i as int), max as nat),
        decreases n - i,
    {
        assert(fs.take(i + 1).drop_last() =~= fs.take(i as int));
        let (k, v) = field_at(row, i, headers);
        let mut ph = chars_of(k.as_str());
        push_str(&mut ph, "_VALUE");
        let t = example_value_text(v);
        add_example_value(ex, string_of(ph.as_slice()), t, max);
        i = i + 1;
    }
    assert(fs.take(i as int) =~= fs);
}

/// Builds the templates of JSON rows: the rows grouped by pattern (a value
/// stays in the pattern where its text comes under its key at least
/// `static_threshold` times, else `[VALUE]`), one template per pattern in order
/// of first occurrence with its number of rows and the examples of its first
/// `max_sample_lines` rows, at most `max_examples` per placeholder.
pub fn json_templates_from_rows(
    rows: &[JsonValue],
    headers: Option<&Vec<String>>,
    static_threshold: usize,
    max_examples: usize,
    max_sample_lines: usize,
) -> (r: Vec<Template>)
    ensures
        templates_model(r@) == spec_json_templates(rows@, headers_view(headers), static_threshold, max_examples, max_sample_lines),
{
    let ghost hv = headers_view(headers);
    let (fm, fu) = collect_json_frequencies(rows, headers);
    let ghost u = counts_view(fu@);
    let mut gm: StringHashMap<usize> = StringHashMap::new();
    let mut groups: Vec<(String, Vec<usize>)> = Vec::new();
    let mut r: usize = 0;
    while r < rows.len()
        invariant
            r <= rows.len(),
            hv == headers_view(headers),
            u == counts_view(fu@),
            u == key_value_counts(rows@, hv),
            indexes(fm@, counts_view(fu@)),
            indexes(gm@, row_groups_view(groups@)),
            row_groups_view(groups@) == row_groups(rows@, u, static_threshold, hv, r as nat),
            indices_below(row_groups_view(groups@), rows.len() as nat),
        decreases rows.len() - r,
    {
        let p = extract_json_pattern(&rows[r], &fm, &fu, static_threshold, headers);
        proof {
            lemma_add_row_below(row_groups_view(groups@), p@, r as nat, rows.len() as nat);
        }
        add_row_to_group(&mut gm, &mut groups, p, r);
        r = r + 1;
    }
    let ghost gv = row_groups_view(groups@);
    let ghost want = spec_json_templates(rows@, hv, static_threshold, max_examples, max_sample_lines);
    let mut out: Vec<Template> = Vec::new();
    let mut g: usize = 0;
    while g < groups.len()
        invariant
            g <= groups.len(),
            hv == headers_view(headers),
            gv == row_groups_view(groups@),
            gv == row_groups(rows@, key_value_counts(rows@, hv), static_threshold, hv, rows@.len()),
            want == spec_json_templates(rows@, hv, static_threshold, max_examples, max_sample_lines),
            want.len() == gv.len(),
            indices_below(gv, rows.len() as nat),
            templates_model(out@) == want.take(g as int),
        decreases groups.len() - g,
    {
        let idx = &groups[g].1;
        let ghost iv = gv[g as int].1;
        assert(iv == idx@.map_values(|x: usize| x as nat));
        assert forall|q: int| 0 <= q < idx.len() implies idx@[q] < rows.len() by {
            assert(gv[g as int].1[q] == idx@[q] as nat);
        }
        let take = if idx.len() < max_sample_lines {
            idx.len()
        } else {
            max_sample_lines
        };
        let mut ex: Vec<(String, Vec<String>)> = Vec::new();
        let mut k: usize = 0;
        while k < take
            invariant
                k <= take <= idx.len(),
                iv == idx@.map_values(|x: usize| x as nat),
                hv == headers_view(headers),
                forall|q: int| 0 <= q < idx.len() ==> idx@[q] < rows.len(),
                examples_view(ex@) == group_examples(rows@, iv, k as nat, hv, max_examples as nat),
            decreases take - k,
        {
            let ri = idx[k];
            extract_json_examples(&rows[ri], &mut ex, headers, max_examples);
            k = k + 1;
        }
        let t = Template { pattern: groups[g].0.clone(), count: idx.len(), examples: ex };
        let ghost prev = templates_model(out@);
        assert(template_model(t) == want[g as int]);
        out.push(t);
        assert(templates_model(out@) =~= prev.push(template_model(t)));
        assert(want.take(g + 1) =~= want.take(g as int).push(want[g as int]));
        g = g + 1;
    }
    assert(want.take(g as int) =~= want);
    out
}

// ---------------------------------------------------------------------------
// Laws
// ---------------------------------------------------------------------------

/// Number of rows over all groups.
pub open spec fn rows_total(g: Seq<(Seq<char>, Seq<nat>)>) -> nat
    decreases g.len(),
{
    if g.len() == 0 {
        0
    } else {
        rows_total(g.drop_last()) + g.last().1.len()
    }
}

/// The groups' patterns are distinct.
pub open spec fn distinct_patterns(g: Seq<(Seq<char>, Seq<nat>)>) -> bool {
    forall|a: int, b: int| 0 <= a < b < g.len() ==> #[trigger] g[a].0 != #[trigger] g[b].0
}

proof fn lemma_rows_total_update(g: Seq<(Seq<char>, Seq<nat>)>, j: int, x: (Seq<char>, Seq<nat>))
    requires
        0 <= j < g.len(),
    ensures
        rows_total(g.update(j, x)) == rows_total(g) - g[j].1.len() + x.1.len(),
    decreases g.len(),
{
    let u = g.update(j, x);
    if j == g.len() - 1 {
        assert(u.drop_last() =~= g.drop_last());
    } else {
        assert(u.drop_last() =~= g.drop_last().update(j, x));
        lemma_rows_total_update(g.drop_last(), j, x);
    }
}

proof fn lemma_add_row_total(g: Seq<(Seq<char>, Seq<nat>)>, k: Seq<char>, r: nat)
    requires
        distinct_patterns(g),
    ensures
        rows_total(add_row(g, k, r)) == rows_total(g) + 1,
        distinct_patterns(add_row(g, k, r)),
{
    lemma_find_key_from(g, k, 0);
    let j = find_key(g, k);
    let h = add_row(g, k, r);
    if j < g.len() {
        lemma_rows_total_update(g, j, (k, g[j].1.push(r)));
        assert forall|a: int, b: int| 0 <= a < b < h.len() implies #[trigger] h[a].0 != #[trigger] h[b].0 by {
            assert(h[a].0 == g[a].0 && h[b].0 == g[b].0);
        }
    } else {
        assert(g.push((k, seq![r])).drop_last() =~= g);
        assert forall|a: int, b: int| 0 <= a < b < h.len() implies #[trigger] h[a].0 != #[trigger] h[b].0 by {
            if b < g.len() {
                assert(h[a] == g[a] && h[b] == g[b]);
            } else {
                assert(h[a] == g[a]);
            }
        }
    }
}

/// Grouping JSON rows by pattern gives distinct patterns whose row counts add
/// up to the number of rows grouped.
pub proof fn law_json_groups_partition_rows(
    rows: Seq<JsonValue>,
    u: Seq<(Seq<char>, Map<Seq<char>, usize>)>,
    threshold: usize,
    headers: Option<Seq<Seq<char>>>,
    n: nat,
)
    ensures
        rows_total(row_groups(rows, u, threshold, headers, n)) == n,
        distinct_patterns(row_groups(rows, u, threshold, headers, n)),
    decreases n,
{
    if n > 0 {
        law_json_groups_partition_rows(rows, u, threshold, headers, (n - 1) as nat);
        lemma_add_row_total(
            row_groups(rows, u, threshold, headers, (n - 1) as nat),
            row_pattern(u, threshold, rows[n - 1], headers),
            (n - 1) as nat,
        );
    }
}

} // verus!
