//! PDF dates (`D:YYYYMMDDHHmmSSOHH'mm`) to ISO 8601, and the document-info date
//! text as the PDF library prints it.

use vstd::prelude::*;
use vstd::utf8::{decode_utf8, encode_utf8, is_char_boundary};
use vstd::string::StringSliceAdditionalSpecFns;

use crate::npy::latin1;
use crate::pickle::opt_text;
use crate::text::{chars_of, copy_range, has_prefix, has_suffix, string_of, append_chars, starts_with, ends_with};

verus! {

// ---------------------------------------------------------------------------
// Specifications
// ---------------------------------------------------------------------------

/// ASCII digit byte.
pub open spec fn is_digit_byte(x: u8) -> bool {
    0x30 <= x && x <= 0x39
}

/// `b[a..e]` lies inside `b` and is all ASCII digits.
pub open spec fn digits_in(b: Seq<u8>, a: int, e: int) -> bool {
    0 <= a <= e <= b.len() && forall|i: int| a <= i < e ==> is_digit_byte(#[trigger] b[i])
}

/// Value of the two digits at `a`.
pub open spec fn two_digits(b: Seq<u8>, a: int) -> int {
    (b[a] - 48) * 10 + (b[a + 1] - 48)
}

/// A two-digit component at `start`: the default when the text is shorter than
/// `min_len`, the digits when they lie in `lo..=hi`, otherwise nothing.
pub open spec fn date_component(
    d: Seq<u8>,
    start: int,
    min_len: int,
    lo: int,
    hi: int,
    default: Seq<char>,
) -> Option<Seq<char>> {
    if d.len() < min_len {
        Some(default)
    } else if digits_in(d, start, start + 2) && lo <= two_digits(d, start) <= hi {
        Some(latin1(d.subrange(start, start + 2)))
    } else {
        None
    }
}

/// Two digits at `a` that lie in `0..=hi`, or `"00"`.
pub open spec fn offset_part(tb: Seq<u8>, a: int, hi: int) -> Seq<char> {
    if digits_in(tb, a, a + 2) && two_digits(tb, a) <= hi {
        latin1(tb.subrange(a, a + 2))
    } else {
        "00"@
    }
}

/// The time-zone suffix from the text after the seconds (`tb` as bytes): `+00:00`
/// when there is none; `None` when an offset field does not fall on character
/// boundaries.
pub open spec fn spec_timezone(tb: Seq<u8>) -> Option<Seq<char>> {
    let t = decode_utf8(tb);
    if t.len() == 0 {
        Some("+00:00"@)
    } else if t[0] == '+' || t[0] == '-' {
        let hour = if tb.len() >= 3 {
            if is_char_boundary(tb, 1) && is_char_boundary(tb, 3) {
                Some(offset_part(tb, 1, 23))
            } else {
                None
            }
        } else {
            Some("00"@)
        };
        let minute = if tb.len() >= 6 && t.len() > 3 && t[3] == '\'' {
            if is_char_boundary(tb, 4) && is_char_boundary(tb, 6) {
                Some(offset_part(tb, 4, 59))
            } else {
                None
            }
        } else {
            Some("00"@)
        };
        match (hour, minute) {
            (Some(h), Some(m)) => Some(seq![t[0]] + h + ":"@ + m),
            _ => None,
        }
    } else {
        Some("+00:00"@)
    }
}

/// ISO 8601 form (`YYYY-MM-DDTHH:MM:SS+HH:MM`) of a PDF date whose UTF-8 bytes are
/// `b`: an optional `D:` prefix, at least `YYYYMMDD`, then optional hour, minute,
/// second and offset; missing parts take defaults, invalid ones give `None`.
pub open spec fn spec_format_pdf_date(b: Seq<u8>) -> Option<Seq<char>> {
    let base: int = if b.len() >= 2 && b[0] == 0x44 && b[1] == 0x3a {
        2
    } else {
        0
    };
    let d = b.subrange(base, b.len() as int);
    if d.len() < 8 || !digits_in(d, 0, 4) {
        None
    } else {
        let month = date_component(d, 4, 6, 1, 12, "01"@);
        let day = date_component(d, 6, 8, 1, 31, "01"@);
        let hour = date_component(d, 8, 10, 0, 23, "00"@);
        let minute = date_component(d, 10, 12, 0, 59, "00"@);
        let second = date_component(d, 12, 14, 0, 59, "00"@);
        let tz = if d.len() >= 14 && is_char_boundary(b, base + 14) {
            spec_timezone(b.subrange(base + 14, b.len() as int))
        } else {
            Some("+00:00"@)
        };
        match (month, day, hour, minute, second, tz) {
            (Some(mo), Some(da), Some(h), Some(mi), Some(s), Some(z)) => Some(
                latin1(d.subrange(0, 4)) + "-"@ + mo + "-"@ + da + "T"@ + h + ":"@ + mi + ":"@
                    + s + z,
            ),
            _ => None,
        }
    }
}

/// The text inside `Date(…)`, or the text itself when it is not of that form.
pub open spec fn spec_date_from_debug(s: Seq<char>) -> Seq<char> {
    if has_prefix(s, "Date("@) && has_suffix(s.subrange(5, s.len() as int), ")"@) {
        s.subrange(5, s.len() - 1)
    } else {
        s
    }
}

// ---------------------------------------------------------------------------
// Executable
// ---------------------------------------------------------------------------

/// The inner text of the PDF library's `Date(...)` debug form (or the text as is).
pub fn extract_date_string_from_debug(debug_str: &str) -> (r: String)
    ensures
        r@ == spec_date_from_debug(debug_str@),
{
    let s = chars_of(debug_str);
    proof {
        reveal_strlit("Date(");
        reveal_strlit(")");
    }
    let pre = chars_of("Date(");
    let suf = chars_of(")");
    if starts_with(s.as_slice(), pre.as_slice()) {
        let rest = copy_range(s.as_slice(), 5, s.len());
        if ends_with(rest.as_slice(), suf.as_slice()) {
            let inner = copy_range(s.as_slice(), 5, s.len() - 1);
            assert(s@.subrange(5, s.len() as int) == rest@);
            return string_of(inner.as_slice());
        }
    }
    debug_str.to_owned()
}

/// Whether `b[a..e]` is in range and all ASCII digits.
fn digits_at(b: &[u8], a: usize, e: usize) -> (r: bool)
    requires
        a <= e,
    ensures
        r == digits_in(b@, a as int, e as int),
{
    if e > b.len() {
        return false;
    }
    let mut i = a;
    while i < e
        invariant
            a <= i <= e <= b.len(),
            forall|k: int| a <= k < i ==> is_digit_byte(#[trigger] b@[k]),
        decreases e - i,
    {
        if !(b[i] >= 0x30 && b[i] <= 0x39) {
            return false;
        }
        i = i + 1;
    }
    true
}

/// Characters of `b[a..e]`, one per byte.
fn byte_chars(b: &[u8], a: usize, e: usize) -> (v: Vec<char>)
    requires
        a <= e <= b.len(),
    ensures
        v@ == latin1(b@.subrange(a as int, e as int)),
{
    let mut v: Vec<char> = Vec::new();
    let mut i = a;
    while i < e
        invariant
            a <= i <= e <= b.len(),
            v@ == latin1(b@.subrange(a as int, i as int)),
        decreases e - i,
    {
        v.push(b[i] as char);
        i = i + 1;
        assert(v@ =~= latin1(b@.subrange(a as int, i as int)));
    }
    v
}

/// Extracts and checks the two-digit component at `start` of `d = b[base..]`.
fn extract_date_component(
    b: &[u8],
    base: usize,
    start: usize,
    min_len: usize,
    min_val: u8,
    max_val: u8,
    default: &str,
) -> (r: Option<Vec<char>>)
    requires
        base <= b.len(),
        start + 2 == min_len,
    ensures
        match r {
            Some(v) => date_component(
                b@.subrange(base as int, b.len() as int),
                start as int,
                min_len as int,
                min_val as int,
                max_val as int,
                default@,
            ) == Some(v@),
            None => date_component(
                b@.subrange(base as int, b.len() as int),
                start as int,
                min_len as int,
                min_val as int,
                max_val as int,
                default@,
            ) is None,
        },
{
    let ghost d = b@.subrange(base as int, b.len() as int);
    if b.len() - base < min_len {
        return Some(chars_of(default));
    }
    if !digits_at(b, base + start, base + start + 2) {
        assert(!digits_in(d, start as int, start + 2)) by {
            if digits_in(d, start as int, start + 2) {
                assert forall|k: int| base + start <= k < base + start + 2 implies is_digit_byte(
                    #[trigger] b@[k],
                ) by {
                    assert(b@[k] == d[k - base]);
                }
            }
        }
        return None;
    }
    assert(b@[base + start as int] == d[start as int]);
    assert(b@[base + start + 1] == d[start + 1]);
    let num = (b[base + start] - 48) * 10 + (b[base + start + 1] - 48);
    if num < min_val || num > max_val {
        return None;
    }
    let v = byte_chars(b, base + start, base + start + 2);
    assert(b@.subrange(base + start, base + start + 2) =~= d.subrange(start as int, start + 2));
    Some(v)
}

/// Two digits at `a` of `tb` when they lie in `0..=hi`, else `"00"`.
fn offset_field(tb: &[u8], a: usize, hi: u8) -> (v: Vec<char>)
    requires
        a + 2 <= tb.len(),
    ensures
        v@ == offset_part(tb@, a as int, hi as int),
{
    if digits_at(tb, a, a + 2) {
        let n = (tb[a] - 48) * 10 + (tb[a + 1] - 48);
        if n <= hi {
            return byte_chars(tb, a, a + 2);
        }
    }
    chars_of("00")
}

/// The time-zone suffix from the text after the seconds.
fn timezone_suffix(tz: &str) -> (r: Option<Vec<char>>)
    ensures
        match r {
            Some(v) => spec_timezone(tz.spec_bytes()) == Some(v@),
            None => spec_timezone(tz.spec_bytes()) is None,
        },
{
    proof {
        vstd::utf8::encode_utf8_decode_utf8(tz@);
    }
    let t = chars_of(tz);
    let tb = tz.as_bytes();
    if t.len() == 0 {
        return Some(chars_of("+00:00"));
    }
    let c = t[0];
    if c == '+' || c == '-' {
        let hour = if tb.len() >= 3 {
            if tz.is_char_boundary(1) && tz.is_char_boundary(3) {
                offset_field(tb, 1, 23)
            } else {
                return None;
            }
        } else {
            chars_of("00")
        };
        let minute = if tb.len() >= 6 && t.len() > 3 && t[3] == '\'' {
            if tz.is_char_boundary(4) && tz.is_char_boundary(6) {
                offset_field(tb, 4, 59)
            } else {
                return None;
            }
        } else {
            chars_of("00")
        };
        let mut v: Vec<char> = Vec::new();
        v.push(c);
        append_chars(&mut v, hour.as_slice());
        append_chars(&mut v, chars_of(":").as_slice());
        append_chars(&mut v, minute.as_slice());
        Some(v)
    } else {
        Some(chars_of("+00:00"))
    }
}

/// Formats a PDF date (`D:YYYYMMDDHHmmSSOHH'mm`, minimum `YYYYMMDD`) as ISO 8601
/// `YYYY-MM-DDTHH:MM:SS+HH:MM`; missing time parts default to zero, missing month and
/// day to `01`, a missing offset to `+00:00`.
pub fn format_pdf_date(date_str: &str) -> (r: Option<String>)
    ensures
        opt_text(r) == spec_format_pdf_date(date_str.spec_bytes()),
{
    let b = date_str.as_bytes();
    let base: usize = if b.len() >= 2 && b[0] == 0x44 && b[1] == 0x3a {
        2
    } else {
        0
    };
    let ghost d = b@.subrange(base as int, b.len() as int);
    if b.len() - base < 8 {
        return None;
    }
    if !digits_at(b, base, base + 4) {
        assert(!digits_in(d, 0, 4)) by {
            if digits_in(d, 0, 4) {
                assert forall|k: int| base <= k < base + 4 implies is_digit_byte(#[trigger] b@[k]) by {
                    assert(b@[k] == d[k - base]);
                }
            }
        }
        return None;
    }
    let month = match extract_date_component(b, base, 4, 6, 1, 12, "01") {
        Some(v) => v,
        None => return None,
    };
    let day = match extract_date_component(b, base, 6, 8, 1, 31, "01") {
        Some(v) => v,
        None => return None,
    };
    let hour = match extract_date_component(b, base, 8, 10, 0, 23, "00") {
        Some(v) => v,
        None => return None,
    };
    let minute = match extract_date_component(b, base, 10, 12, 0, 59, "00") {
        Some(v) => v,
        None => return None,
    };
    let second = match extract_date_component(b, base, 12, 14, 0, 59, "00") {
        Some(v) => v,
        None => return None,
    };
    let tz = if b.len() - base >= 14 && date_str.is_char_boundary(base + 14) {
        let (_, rest) = date_str.split_at(base + 14);
        match timezone_suffix(rest) {
            Some(z) => z,
            None => return None,
        }
    } else {
        chars_of("+00:00")
    };
    let mut v = byte_chars(b, base, base + 4);
    assert(b@.subrange(base as int, base + 4) =~= d.subrange(0, 4));
    append_chars(&mut v, chars_of("-").as_slice());
    append_chars(&mut v, month.as_slice());
    append_chars(&mut v, chars_of("-").as_slice());
    append_chars(&mut v, day.as_slice());
    append_chars(&mut v, chars_of("T").as_slice());
    append_chars(&mut v, hour.as_slice());
    append_chars(&mut v, chars_of(":").as_slice());
    append_chars(&mut v, minute.as_slice());
    append_chars(&mut v, chars_of(":").as_slice());
    append_chars(&mut v, second.as_slice());
    append_chars(&mut v, tz.as_slice());
    Some(string_of(v.as_slice()))
}

// ---------------------------------------------------------------------------
// Laws
// ---------------------------------------------------------------------------

proof fn lemma_component_len(d: Seq<u8>, start: int, min_len: int, lo: int, hi: int, default: Seq<char>)
    requires
        default.len() == 2,
        0 <= start,
    ensures
        date_component(d, start, min_len, lo, hi, default) matches Some(c) ==> c.len() == 2,
{
}

proof fn lemma_timezone_len(tb: Seq<u8>)
    ensures
        spec_timezone(tb) matches Some(z) ==> z.len() == 6,
{
    reveal_strlit("00");
    reveal_strlit(":");
    reveal_strlit("+00:00");
}

/// Law: every date the formatter gives has the ISO 8601 shape
/// `YYYY-MM-DDTHH:MM:SS+HH:MM`, 25 characters long.
pub proof fn law_iso_date_length(b: Seq<u8>)
    ensures
        spec_format_pdf_date(b) matches Some(s) ==> s.len() == 25,
{
    reveal_strlit("01");
    reveal_strlit("00");
    reveal_strlit("-");
    reveal_strlit("T");
    reveal_strlit(":");
    reveal_strlit("+00:00");
    let base: int = if b.len() >= 2 && b[0] == 0x44 && b[1] == 0x3a {
        2
    } else {
        0
    };
    let d = b.subrange(base, b.len() as int);
    lemma_component_len(d, 4, 6, 1, 12, "01"@);
    lemma_component_len(d, 6, 8, 1, 31, "01"@);
    lemma_component_len(d, 8, 10, 0, 23, "00"@);
    lemma_component_len(d, 10, 12, 0, 59, "00"@);
    lemma_component_len(d, 12, 14, 0, 59, "00"@);
    if d.len() >= 14 {
        lemma_timezone_len(b.subrange(base + 14, b.len() as int));
    }
}

} // verus!
