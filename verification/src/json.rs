//! JSON file metadata: line endings, line lengths, blank lines, the root value's
//! type and size, nesting depth, and whether the text looks pretty-printed.

use vstd::prelude::*;
use vstd::string::StringSliceAdditionalSpecFns;
use vstd::utf8::encode_utf8;

use crate::ini::all_lines;
use crate::text::{char_vecs, chars_of, contains, has_infix, lines, string_of, trim, trim_chars};

verus! {

/// A parsed JSON value: scalars with their text (a number as serde_json
/// displays it), array items, and object keys with their values (keys in
/// increasing order, as serde_json keeps them).
pub enum JsonValue {
    Null,
    Bool(bool),
    Number(String),
    Str(String),
    Array(Vec<JsonValue>),
    Object(Vec<String>, Vec<JsonValue>),
}

/// Metadata of a JSON file.
pub struct JsonMetadata {
    pub byte_count: usize,
    pub line_count: usize,
    pub line_ending: Option<String>,
    pub max_line_length: Option<usize>,
    pub blank_line_count: Option<usize>,
    pub root_type: Option<String>,
    pub root_array_length: Option<usize>,
    pub root_object_key_count: Option<usize>,
    pub max_depth: Option<usize>,
    pub pretty_printed: Option<bool>,
}

// ---------------------------------------------------------------------------
// The parser
// ---------------------------------------------------------------------------

#[verifier::external_type_specification]
#[verifier::external_body]
pub struct ExJsonValue(serde_json::Value);

/// The value `serde_json::from_str` gives for a text (`None` where it fails).
pub uninterp spec fn json_document(text: Seq<char>) -> Option<JsonValue>;

/// Converts a parsed value, node for node.
#[verifier::external_body]
fn json_value_of(v: serde_json::Value) -> JsonValue {
    match v {
        serde_json::Value::Null => JsonValue::Null,
        serde_json::Value::Bool(b) => JsonValue::Bool(b),
        serde_json::Value::Number(n) => JsonValue::Number(n.to_string()),
        serde_json::Value::String(t) => JsonValue::Str(t),
        serde_json::Value::Array(a) => JsonValue::Array(a.into_iter().map(json_value_of).collect()),
        serde_json::Value::Object(m) => {
            let (k, v): (Vec<String>, Vec<serde_json::Value>) = m.into_iter().unzip();
            JsonValue::Object(k, v.into_iter().map(json_value_of).collect())
        },
    }
}

/// Rebuilds the `serde_json::Value` a model stands for, node for node.
#[verifier::external_body]
fn serde_value_of(v: &JsonValue) -> serde_json::Value {
    match v {
        JsonValue::Null => serde_json::Value::Null,
        JsonValue::Bool(b) => serde_json::Value::Bool(*b),
        JsonValue::Number(n) => n.parse().map(serde_json::Value::Number).unwrap_or(serde_json::Value::Null),
        JsonValue::Str(t) => serde_json::Value::String(t.clone()),
        JsonValue::Array(a) => serde_json::Value::Array(a.iter().map(serde_value_of).collect()),
        JsonValue::Object(k, v) => serde_json::Value::Object(k.iter().cloned().zip(v.iter().map(serde_value_of)).collect()),
    }
}

/// What the `Debug` form (`{:?}`) of the serde_json value gives.
pub uninterp spec fn json_debug_text(v: JsonValue) -> Seq<char>;

/// `Debug` of `serde_json::Value` (`format!("{:?}", ..)`) on the value the
/// model stands for.
#[verifier::external_body]
pub(crate) fn json_debug(v: &JsonValue) -> (r: String)
    ensures
        r@ == json_debug_text(*v),
{
    format!("{:?}", serde_value_of(v))
}

/// `serde_json::from_str` into a `serde_json::Value`.
#[verifier::external_body]
pub(crate) fn json_parse(text: &str) -> (r: Option<JsonValue>)
    ensures
        r == json_document(text@),
{
    serde_json::from_str::<serde_json::Value>(text).ok().map(json_value_of)
}

// ---------------------------------------------------------------------------
// Depth
// ---------------------------------------------------------------------------

/// Nesting depth: 1 for a scalar or an empty container, else one more than its
/// deepest child.
pub open spec fn json_depth(v: JsonValue) -> nat
    decreases v,
{
    match v {
        JsonValue::Array(items) => 1 + deepest(items@),
        JsonValue::Object(_, items) => 1 + deepest(items@),
        _ => 1,
    }
}

/// Deepest of some values (0 for none).
pub open spec fn deepest(items: Seq<JsonValue>) -> nat
    decreases items,
{
    if items.len() == 0 {
        0
    } else {
        proof {
            assert(decreases_to!(items => items.last()));
        }
        let a = deepest(items.drop_last());
        let b = json_depth(items.last());
        if a >= b {
            a
        } else {
            b
        }
    }
}

proof fn lemma_deepest_prefix(items: Seq<JsonValue>, k: int)
    requires
        0 <= k <= items.len(),
    ensures
        deepest(items.take(k)) <= deepest(items),
    decreases items.len() - k,
{
    if k < items.len() {
        lemma_deepest_prefix(items, k + 1);
        assert(items.take(k + 1).drop_last() =~= items.take(k));
    } else {
        assert(items.take(k) =~= items);
    }
}

/// Deepest of some values, where it fits.
fn deepest_of(items: &Vec<JsonValue>) -> (r: Option<usize>)
    ensures
        r == (if deepest(items@) <= usize::MAX {
            Some(deepest(items@) as usize)
        } else {
            None
        }),
    decreases items,
{
    let mut best: usize = 0;
    let mut i: usize = 0;
    while i < items.len()
        invariant
            i <= items.len(),
            best == deepest(items@.take(i as int)),
        decreases items.len() - i,
    {
        assert(items@.take(i + 1).drop_last() =~= items@.take(i as int));
        assert(items@.take(i + 1).last() == items@[i as int]);
        assert(decreases_to!(*items => items@[i as int])) by {
            assert(decreases_to!(*items => items@));
        }
        match json_max_depth(&items[i]) {
            Some(d) => {
                if d > best {
                    best = d;
                }
            },
            None => {
                proof {
                    lemma_deepest_prefix(items@, i + 1);
                }
                return None;
            },
        }
        i = i + 1;
    }
    assert(items@.take(i as int) =~= items@);
    Some(best)
}

/// Nesting depth of a value (`None` where it does not fit).
pub fn json_max_depth(value: &JsonValue) -> (r: Option<usize>)
    ensures
        r == (if json_depth(*value) <= usize::MAX {
            Some(json_depth(*value) as usize)
        } else {
            None
        }),
    decreases value,
{
    match value {
        JsonValue::Array(items) => {
            assert(decreases_to!(*value => *items));
            match deepest_of(items) {
                Some(d) => if d < usize::MAX {
                    Some(d + 1)
                } else {
                    None
                },
                None => None,
            }
        },
        JsonValue::Object(_, items) => {
            assert(decreases_to!(*value => *items));
            match deepest_of(items) {
                Some(d) => if d < usize::MAX {
                    Some(d + 1)
                } else {
                    None
                },
                None => None,
            }
        },
        _ => Some(1),
    }
}

// ---------------------------------------------------------------------------
// Lines
// ---------------------------------------------------------------------------

/// Line endings from byte `i` on: `(lf, crlf, cr)`, a `\r\n` counted once.
pub open spec fn endings_from(b: Seq<u8>, i: int) -> (nat, nat, nat)
    decreases b.len() - i,
{
    if i < 0 || i >= b.len() {
        (0, 0, 0)
    } else if b[i] == 0x0d {
        if i + 1 < b.len() && b[i + 1] == 0x0a {
            let r = endings_from(b, i + 2);
            (r.0, r.1 + 1, r.2)
        } else {
            let r = endings_from(b, i + 1);
            (r.0, r.1, r.2 + 1)
        }
    } else if b[i] == 0x0a {
        let r = endings_from(b, i + 1);
        (r.0 + 1, r.1, r.2)
    } else {
        endings_from(b, i + 1)
    }
}

/// The line ending style: none when there is no ending, else `crlf`, `lf` or
/// `cr` when all endings are of that kind, else `mixed`.
pub open spec fn spec_line_ending(b: Seq<u8>) -> Option<Seq<char>> {
    let (lf, crlf, cr) = endings_from(b, 0);
    let total = lf + crlf + cr;
    if total == 0 {
        None
    } else if crlf == total {
        Some("crlf"@)
    } else if lf == total {
        Some("lf"@)
    } else if cr == total {
        Some("cr"@)
    } else {
        Some("mixed"@)
    }
}

/// Longest line in bytes, over `ls` (0 for none).
pub open spec fn longest(ls: Seq<Seq<char>>) -> nat
    decreases ls.len(),
{
    if ls.len() == 0 {
        0
    } else {
        let a = longest(ls.drop_last());
        let b = encode_utf8(ls.last()).len();
        if a >= b {
            a
        } else {
            b
        }
    }
}

/// Number of lines that are blank once trimmed.
pub open spec fn blank_lines(ls: Seq<Seq<char>>) -> nat
    decreases ls.len(),
{
    if ls.len() == 0 {
        0
    } else {
        blank_lines(ls.drop_last()) + (if trim(ls.last()).len() == 0 {
            1nat
        } else {
            0nat
        })
    }
}

/// Line-ending counts of the bytes.
fn count_line_endings(b: &[u8]) -> (r: (usize, usize, usize))
    ensures
        r.0 == endings_from(b@, 0).0,
        r.1 == endings_from(b@, 0).1,
        r.2 == endings_from(b@, 0).2,
        r.0 + r.1 + r.2 <= b.len(),
{
    let mut lf: usize = 0;
    let mut crlf: usize = 0;
    let mut cr: usize = 0;
    let mut i: usize = 0;
    while i < b.len()
        invariant
            i <= b.len(),
            lf + crlf + cr <= i,
            endings_from(b@, 0) == ((lf + endings_from(b@, i as int).0) as nat, (crlf + endings_from(b@, i as int).1) as nat, (cr + endings_from(b@, i as int).2) as nat),
        decreases b.len() - i,
    {
        if b[i] == 0x0d {
            if i + 1 < b.len() && b[i + 1] == 0x0a {
                crlf = crlf + 1;
                i = i + 2;
            } else {
                cr = cr + 1;
                i = i + 1;
            }
        } else if b[i] == 0x0a {
            lf = lf + 1;
            i = i + 1;
        } else {
            i = i + 1;
        }
    }
    (lf, crlf, cr)
}

// ---------------------------------------------------------------------------
// Metadata
// ---------------------------------------------------------------------------

/// Root type, array length, object key count and depth of a text: from the
/// whole text where it parses, else the depth of its first line where that
/// parses.
pub open spec fn spec_root(text: Seq<char>) -> (Option<Seq<char>>, Option<usize>, Option<usize>, Option<nat>) {
    match json_document(text) {
        Some(v) => match v {
            JsonValue::Array(items) => (Some("array"@), Some(items@.len() as usize), None, Some(json_depth(v))),
            JsonValue::Object(_, items) => (Some("object"@), None, Some(items@.len() as usize), Some(json_depth(v))),
            _ => (None, None, None, Some(1)),
        },
        None => {
            let first = if lines(text).len() > 0 {
                lines(text)[0]
            } else {
                Seq::empty()
            };
            match json_document(first) {
                Some(v) => (None, None, None, Some(json_depth(v))),
                None => (None, None, None, None),
            }
        },
    }
}

/// A depth as reported: where it fits a `usize`.
pub open spec fn depth_field(d: Option<nat>) -> Option<usize> {
    match d {
        Some(n) => if n <= usize::MAX {
            Some(n as usize)
        } else {
            None
        },
        None => None,
    }
}

/// Line statistics of a text: its line-ending style, its longest line in bytes
/// (none without lines) and its number of blank lines (none when there is none).
pub fn line_statistics(content: &str) -> (r: (Option<String>, Option<usize>, Option<usize>))
    ensures
        opt_text_of(r.0) == spec_line_ending(content.spec_bytes()),
        r.1 == (if lines(content@).len() > 0 {
            Some(longest(lines(content@)) as usize)
        } else {
            None
        }),
        r.2 == (if blank_lines(lines(content@)) > 0 {
            Some(blank_lines(lines(content@)) as usize)
        } else {
            None
        }),
{
    let (lf, crlf, cr) = count_line_endings(content.as_bytes());
    let total = lf + crlf + cr;
    let line_ending = if total == 0 {
        None
    } else if crlf == total {
        Some("crlf".to_owned())
    } else if lf == total {
        Some("lf".to_owned())
    } else if cr == total {
        Some("cr".to_owned())
    } else {
        Some("mixed".to_owned())
    };
    let text = chars_of(content);
    let ls = all_lines(text.as_slice());
    let ghost lv = char_vecs(ls@);
    let mut longest_len: usize = 0;
    let mut blank: usize = 0;
    let mut i: usize = 0;
    while i < ls.len()
        invariant
            i <= ls.len(),
            lv == char_vecs(ls@),
            longest_len == longest(lv.take(i as int)),
            blank == blank_lines(lv.take(i as int)),
            blank <= i,
        decreases ls.len() - i,
    {
        assert(lv.take(i + 1).drop_last() =~= lv.take(i as int));
        assert(lv.take(i + 1).last() == ls@[i as int]@);
        let line = string_of(ls[i].as_slice());
        let n = line.as_str().as_bytes().len();
        if n > longest_len {
            longest_len = n;
        }
        if trim_chars(ls[i].as_slice()).len() == 0 {
            blank = blank + 1;
        }
        i = i + 1;
    }
    assert(lv.take(i as int) =~= lv);
    let max_line_length = if ls.len() > 0 {
        Some(longest_len)
    } else {
        None
    };
    let blank_line_count = if blank > 0 {
        Some(blank)
    } else {
        None
    };
    (line_ending, max_line_length, blank_line_count)
}

/// Extracts JSON metadata from the text (`byte_count` and `line_count` as the
/// file statistics give them).
pub fn extract_json_metadata(content: &str, byte_count: usize, line_count: usize) -> (m: JsonMetadata)
    ensures
        m.byte_count == byte_count,
        m.line_count == line_count,
        opt_text_of(m.line_ending) == spec_line_ending(content.spec_bytes()),
        m.max_line_length == (if lines(content@).len() > 0 {
            Some(longest(lines(content@)) as usize)
        } else {
            None
        }),
        m.blank_line_count == (if blank_lines(lines(content@)) > 0 {
            Some(blank_lines(lines(content@)) as usize)
        } else {
            None
        }),
        opt_text_of(m.root_type) == spec_root(content@).0,
        m.root_array_length == spec_root(content@).1,
        m.root_object_key_count == spec_root(content@).2,
        m.max_depth == depth_field(spec_root(content@).3),
        m.pretty_printed == Some(has_infix(content@, "\n  "@) || has_infix(content@, "\n\t"@)),
{
    let (line_ending, max_line_length, blank_line_count) = line_statistics(content);
    let text = chars_of(content);
    let ls = all_lines(text.as_slice());
    let ghost lv = char_vecs(ls@);
    let (root_type, root_array_length, root_object_key_count, max_depth) = match json_parse(content) {
        Some(root) => {
            let d = json_max_depth(&root);
            match &root {
                JsonValue::Array(items) => (Some("array".to_owned()), Some(items.len()), None, d),
                JsonValue::Object(_, items) => (Some("object".to_owned()), None, Some(items.len()), d),
                _ => (None, None, None, Some(1)),
            }
        },
        None => {
            let first: Vec<char> = if ls.len() > 0 {
                ls[0].clone()
            } else {
                Vec::new()
            };
            proof {
                if ls@.len() > 0 {
                    assert(first@ == lv[0]);
                }
            }
            let first_text = string_of(first.as_slice());
            match json_parse(first_text.as_str()) {
                Some(v) => (None, None, None, json_max_depth(&v)),
                None => (None, None, None, None),
            }
        },
    };
    proof {
        reveal_strlit("\n  ");
        reveal_strlit("\n\t");
    }
    let pretty = contains(text.as_slice(), chars_of("\n  ").as_slice()) || contains(
        text.as_slice(),
        chars_of("\n\t").as_slice(),
    );
    JsonMetadata {
        byte_count,
        line_count,
        line_ending,
        max_line_length,
        blank_line_count,
        root_type,
        root_array_length,
        root_object_key_count,
        max_depth,
        pretty_printed: Some(pretty),
    }
}

/// The text of an optional string.
pub open spec fn opt_text_of(o: Option<String>) -> Option<Seq<char>> {
    match o {
        Some(s) => Some(s@),
        None => None,
    }
}

} // verus!
