//! `NumPy` `.npy`: header parsing (magic, version, header dict, data offset) and
//! bounded sampling of rank 0–2 arrays into a row/column grid.

use vstd::prelude::*;

use crate::pickle::opt_text;
use crate::regexp::{regex_capture, regex_group, regex_is_match, regex_matches};
use crate::results::{ArrayLayoutSummary, ColumnarCommonFields, StructuredEncoding};
use crate::text::{
    all_digits, append_chars, chars_of, decimal, decimal_chars, digits_value, has_prefix,
    string_of, trim, trim_chars,
};

verus! {

// ---------------------------------------------------------------------------
// Outside calls
// ---------------------------------------------------------------------------

// ---------------------------------------------------------------------------
// Patterns and specifications
// ---------------------------------------------------------------------------

/// `descr` entry of the header dict.
pub const RE_DESCR: &'static str = r"'descr'\s*:\s*'((?:[^'\\]|\\.)*)'";

/// `shape` entry of the header dict.
pub const RE_SHAPE: &'static str = r"'shape'\s*:\s*\(([^)]*)\)";

/// `fortran_order` entry of the header dict.
pub const RE_FORTRAN: &'static str = r"'fortran_order'\s*:\s*(True|False)";

/// Unicode string dtype `U<n>`.
pub const RE_U: &'static str = r"^[<>=|]?U(\d+)$";

/// Byte string dtype `S<n>`.
pub const RE_S: &'static str = r"^[<>=|]?S(\d+)$";

/// Void dtype `V<n>`.
pub const RE_V: &'static str = r"^[<>=|]?V(\d+)$";

/// Standard dtype: letters then a byte width.
pub const RE_STD: &'static str = r"^[<>=|]?[a-zA-Z]+\d+$";

/// `usize::from_str`: an optional `+`, then one or more ASCII digits, within range.
pub open spec fn parse_usize(s: Seq<char>) -> Option<usize> {
    let d = if s.len() > 0 && s[0] == '+' {
        s.subrange(1, s.len() as int)
    } else {
        s
    };
    if d.len() > 0 && all_digits(d) && digits_value(d) <= usize::MAX {
        Some(digits_value(d) as usize)
    } else {
        None
    }
}

/// The ASCII digits at the end of `s`.
pub open spec fn trailing_digits(s: Seq<char>) -> Seq<char>
    decreases s.len(),
{
    if s.len() > 0 && '0' <= s.last() && s.last() <= '9' {
        trailing_digits(s.drop_last()).push(s.last())
    } else {
        Seq::empty()
    }
}

/// Element size in bytes of a simple `descr` (`<i4`, `>f8`, `|S10`, `U20`, …).
pub open spec fn spec_descr_nbytes(descr: Seq<char>) -> Option<usize> {
    let t = trim(descr);
    if t.len() == 0 || t[0] == '[' || t[0] == '{' {
        None
    } else if regex_group(RE_U@, t, 1) is Some {
        match parse_usize(regex_group(RE_U@, t, 1)->0) {
            Some(n) => if n * 4 <= usize::MAX {
                Some((n * 4) as usize)
            } else {
                None
            },
            None => None,
        }
    } else if regex_group(RE_S@, t, 1) is Some {
        parse_usize(regex_group(RE_S@, t, 1)->0)
    } else if regex_group(RE_V@, t, 1) is Some {
        parse_usize(regex_group(RE_V@, t, 1)->0)
    } else if regex_matches(RE_STD@, t) {
        parse_usize(trailing_digits(t))
    } else {
        None
    }
}

/// Index of the first `c` in `s` at or after `i`, or `s.len()`.
pub open spec fn next_index_of(s: Seq<char>, c: char, i: int) -> int
    decreases s.len() - i,
{
    if i >= s.len() {
        s.len() as int
    } else if s[i] == c {
        i
    } else {
        next_index_of(s, c, i + 1)
    }
}

/// The pieces of `s` from index `i` on, split at `c` (`str::split`).
pub open spec fn split_from(s: Seq<char>, c: char, i: int) -> Seq<Seq<char>>
    decreases s.len() - i,
{
    if i < 0 || i > s.len() {
        Seq::empty()
    } else {
        let e = next_index_of(s, c, i);
        if e >= s.len() || e < i {
            seq![s.subrange(i, s.len() as int)]
        } else {
            seq![s.subrange(i, e)] + split_from(s, c, e + 1)
        }
    }
}

/// Dimensions from comma-separated pieces; blank pieces are skipped, and any other
/// piece that is not a `usize` spoils the whole shape.
pub open spec fn shape_from_pieces(ps: Seq<Seq<char>>) -> Option<Seq<usize>>
    decreases ps.len(),
{
    if ps.len() == 0 {
        Some(Seq::empty())
    } else {
        match shape_from_pieces(ps.drop_last()) {
            Some(dims) => {
                let t = trim(ps.last());
                if t.len() == 0 {
                    Some(dims)
                } else {
                    match parse_usize(t) {
                        Some(v) => Some(dims.push(v)),
                        None => None,
                    }
                }
            },
            None => None,
        }
    }
}

/// The shape tuple inside `( … )`: empty for blank text.
pub open spec fn spec_shape_tuple(inner: Seq<char>) -> Option<Seq<usize>> {
    let t = trim(inner);
    if t.len() == 0 {
        Some(Seq::empty())
    } else {
        shape_from_pieces(split_from(t, ',', 0))
    }
}

/// Product of the dimensions, wrapping at the width of `usize`.
pub open spec fn wrapped_product(shape: Seq<usize>) -> usize
    decreases shape.len(),
{
    if shape.len() == 0 {
        1
    } else {
        ((wrapped_product(shape.drop_last()) as int * shape.last() as int) % (usize::MAX as int
            + 1)) as usize
    }
}

/// Each byte as the character with that code point (Latin-1).
pub open spec fn latin1(b: Seq<u8>) -> Seq<char> {
    b.map_values(|x: u8| x as char)
}

/// `s` with every `\'` replaced by `'`, scanning left to right.
pub open spec fn unescape_quotes(s: Seq<char>) -> Seq<char>
    decreases s.len(),
{
    if s.len() == 0 {
        s
    } else if s.len() >= 2 && s[0] == '\\' && s[1] == '\'' {
        seq!['\''] + unescape_quotes(s.subrange(2, s.len() as int))
    } else {
        seq![s[0]] + unescape_quotes(s.subrange(1, s.len() as int))
    }
}

/// The `.npy` magic: `\x93NUMPY`.
pub open spec fn npy_magic(b: Seq<u8>) -> bool {
    b.len() >= 6 && b[0] == 0x93 && b[1] == 0x4e && b[2] == 0x55 && b[3] == 0x4d && b[4] == 0x50
        && b[5] == 0x59
}

/// Cap on the declared header length.
pub const MAX_HEADER_REGION: usize = 512 * 1024;

/// Header region length and data offset of a well-formed `.npy` prefix, or the
/// error text.
pub open spec fn npy_header_bounds(b: Seq<u8>) -> Result<(int, int), Seq<char>> {
    if b.len() < 10 {
        Err("NPY too short for header prefix"@)
    } else if !npy_magic(b) {
        Err("missing \\x93NUMPY magic"@)
    } else if b[6] == 1 && b[7] == 0 {
        let hlen = b[8] as int + b[9] as int * 256;
        if hlen > MAX_HEADER_REGION {
            Err("NPY v"@ + decimal(1) + " header length "@ + decimal(hlen as nat) + " exceeds cap"@)
        } else if b.len() < 10 + hlen {
            Err("NPY v"@ + decimal(1) + " truncated: need "@ + decimal(hlen as nat)
                + " header bytes, have "@ + decimal((b.len() - 10) as nat))
        } else {
            Ok((hlen, 10 + hlen))
        }
    } else if b[6] == 2 && b[7] == 0 {
        if b.len() < 12 {
            Err("NPY v2 too short for header length"@)
        } else {
            let hlen = b[8] as int + b[9] as int * 0x100 + b[10] as int * 0x1_0000 + b[11] as int
                * 0x100_0000;
            if hlen > MAX_HEADER_REGION {
                Err("NPY v"@ + decimal(2) + " header length "@ + decimal(hlen as nat)
                    + " exceeds cap"@)
            } else if b.len() < 12 + hlen {
                Err("NPY v"@ + decimal(2) + " truncated: need "@ + decimal(hlen as nat)
                    + " header bytes, have "@ + decimal((b.len() - 12) as nat))
            } else {
                Ok((hlen, 12 + hlen))
            }
        }
    } else {
        Err("unsupported NPY version "@ + decimal(b[6] as nat) + "."@ + decimal(b[7] as nat))
    }
}

// ---------------------------------------------------------------------------
// Element sizes and shapes
// ---------------------------------------------------------------------------

/// `usize::from_str` on text.
pub fn parse_usize_chars(s: &[char]) -> (r: Option<usize>)
    ensures
        r == parse_usize(s@),
{
    let start: usize = if s.len() > 0 && s[0] == '+' {
        1
    } else {
        0
    };
    let ghost d = s@.subrange(start as int, s.len() as int);
    assert(d =~= (if s@.len() > 0 && s@[0] == '+' {
        s@.subrange(1, s@.len() as int)
    } else {
        s@
    }));
    if start >= s.len() {
        return None;
    }
    let mut v: usize = 0;
    let mut i: usize = start;
    while i < s.len()
        invariant
            start <= i <= s.len(),
            d == s@.subrange(start as int, s.len() as int),
            d.len() > 0,
            parse_usize(s@) == (if all_digits(d) && digits_value(d) <= usize::MAX {
                Some(digits_value(d) as usize)
            } else {
                None
            }),
            all_digits(s@.subrange(start as int, i as int)),
            v == digits_value(s@.subrange(start as int, i as int)),
        decreases s.len() - i,
    {
        let c = s[i];
        if !(c >= '0' && c <= '9') {
            assert(!all_digits(d)) by {
                assert(d[i - start] == c);
            }
            return None;
        }
        let digit = (c as u32 - 48) as usize;
        let ghost prefix = s@.subrange(start as int, i + 1);
        assert(prefix.drop_last() =~= s@.subrange(start as int, i as int));
        assert(all_digits(prefix));
        assert(digits_value(prefix) == v * 10 + digit);
        if v > (usize::MAX - digit) / 10 {
            proof {
                assert(d.subrange(0, i + 1 - start) =~= prefix);
                lemma_digits_value_prefix_bound(d, (i + 1 - start) as int);
                assert(v * 10 + digit > usize::MAX);
            }
            return None;
        }
        v = v * 10 + digit;
        i = i + 1;
    }
    assert(s@.subrange(start as int, i as int) =~= d);
    Some(v)
}

/// A digit string's value is at least the value of each of its prefixes.
pub proof fn lemma_digits_value_prefix_bound(d: Seq<char>, k: int)
    requires
        0 <= k <= d.len(),
        all_digits(d.subrange(0, k)),
    ensures
        !all_digits(d) || digits_value(d) >= digits_value(d.subrange(0, k)),
    decreases d.len() - k,
{
    if k < d.len() && all_digits(d) {
        assert(d.subrange(0, k + 1).drop_last() =~= d.subrange(0, k));
        lemma_digits_value_prefix_bound(d, k + 1);
    } else if k == d.len() {
        assert(d.subrange(0, k) =~= d);
    }
}

/// The ASCII digits at the end of `s`.
fn trailing_digit_chars(s: &[char]) -> (r: Vec<char>)
    ensures
        r@ == trailing_digits(s@),
{
    let mut start: usize = s.len();
    assert(s@.subrange(0, start as int) =~= s@);
    assert(s@.subrange(start as int, s.len() as int) =~= Seq::<char>::empty());
    while start > 0 && s[start - 1] >= '0' && s[start - 1] <= '9'
        invariant
            start <= s.len(),
            trailing_digits(s@) == trailing_digits(s@.subrange(0, start as int)) + s@.subrange(
                start as int,
                s.len() as int,
            ),
        decreases start,
    {
        let ghost pre = s@.subrange(0, start as int);
        assert(pre.drop_last() =~= s@.subrange(0, start - 1));
        assert(s@.subrange(start - 1, s.len() as int) =~= seq![s@[start - 1]] + s@.subrange(
            start as int,
            s.len() as int,
        ));
        start = start - 1;
    }
    assert(trailing_digits(s@.subrange(0, start as int)) =~= Seq::<char>::empty());
    crate::text::copy_range(s, start, s.len())
}

/// Best-effort element size for simple `descr` strings (e.g. `<i4`, `>f8`, `|S10`, `U20`).
pub fn numpy_descr_element_nbytes(descr: &str) -> (r: Option<usize>)
    ensures
        r == spec_descr_nbytes(descr@),
{
    let tv = trim_chars(chars_of(descr).as_slice());
    if tv.len() == 0 || tv[0] == '[' || tv[0] == '{' {
        return None;
    }
    let t = string_of(tv.as_slice());
    if let Some(g) = regex_capture(RE_U, t.as_str(), 1) {
        let n = parse_usize_chars(chars_of(g.as_str()).as_slice());
        return match n {
            Some(n) => n.checked_mul(4),
            None => None,
        };
    }
    if let Some(g) = regex_capture(RE_S, t.as_str(), 1) {
        return parse_usize_chars(chars_of(g.as_str()).as_slice());
    }
    if let Some(g) = regex_capture(RE_V, t.as_str(), 1) {
        return parse_usize_chars(chars_of(g.as_str()).as_slice());
    }
    if regex_is_match(RE_STD, t.as_str()) {
        let digits = trailing_digit_chars(tv.as_slice());
        return parse_usize_chars(digits.as_slice());
    }
    None
}

/// Each byte as a character (Latin-1).
pub fn latin1_to_string(bytes: &[u8]) -> (s: Vec<char>)
    ensures
        s@ == latin1(bytes@),
{
    let mut out: Vec<char> = Vec::new();
    let mut i: usize = 0;
    while i < bytes.len()
        invariant
            i <= bytes.len(),
            out@ == latin1(bytes@.subrange(0, i as int)),
        decreases bytes.len() - i,
    {
        out.push(bytes[i] as char);
        i = i + 1;
        assert(out@ =~= latin1(bytes@.subrange(0, i as int)));
    }
    assert(bytes@.subrange(0, i as int) =~= bytes@);
    out
}

/// Index of the first `c` at or after `i`, or `s.len()`.
fn index_of_from(s: &[char], c: char, i: usize) -> (e: usize)
    requires
        i <= s.len(),
    ensures
        e as int == next_index_of(s@, c, i as int),
        i <= e <= s.len(),
    decreases s.len() - i,
{
    if i >= s.len() {
        s.len()
    } else if s[i] == c {
        i
    } else {
        index_of_from(s, c, i + 1)
    }
}

/// Dimensions of a shape tuple's inside, e.g. `"3, 4"` or `"5,"`; `None` if a
/// non-blank piece is not a non-negative integer.
pub fn parse_shape_tuple(inner: &[char]) -> (r: Option<Vec<usize>>)
    ensures
        match r {
            Some(v) => spec_shape_tuple(inner@) == Some(v@),
            None => spec_shape_tuple(inner@) is None,
        },
{
    let t = trim_chars(inner);
    if t.len() == 0 {
        let v: Vec<usize> = Vec::new();
        assert(v@ =~= Seq::<usize>::empty());
        return Some(v);
    }
    let ghost all = split_from(t@, ',', 0);
    let ghost done: Seq<Seq<char>> = Seq::empty();
    let mut out: Vec<usize> = Vec::new();
    let mut i: usize = 0;
    let mut finished = false;
    while !finished
        invariant
            i <= t.len(),
            all == split_from(t@, ',', 0),
            t@ == trim(inner@),
            t@.len() > 0,
            !finished ==> all == done + split_from(t@, ',', i as int),
            finished ==> all == done,
            shape_from_pieces(done) == Some(out@),
        decreases t.len() + 1 - i + (if finished { 0int } else { 1int }),
    {
        let e = index_of_from(t.as_slice(), ',', i);
        let piece = crate::text::copy_range(t.as_slice(), i, e);
        let p = trim_chars(piece.as_slice());
        proof {
            assert(done.push(piece@).drop_last() =~= done);
            if e >= t.len() {
                assert(split_from(t@, ',', i as int) == seq![piece@]);
            } else {
                assert(split_from(t@, ',', i as int) == seq![piece@] + split_from(t@, ',', e + 1));
            }
            assert(all.subrange(0, done.len() as int + 1) =~= done.push(piece@));
        }
        if p.len() > 0 {
            match parse_usize_chars(p.as_slice()) {
                Some(v) => {
                    out.push(v);
                },
                None => {
                    proof {
                        assert(trim(piece@) == p@);
                        assert(shape_from_pieces(done.push(piece@)) is None);
                        lemma_shape_pieces_none(done.push(piece@), all);
                        assert(shape_from_pieces(all) is None);
                        assert(t@ == trim(inner@));
                        assert(spec_shape_tuple(inner@) is None);
                    }
                    return None;
                },
            }
        }
        proof {
            done = done.push(piece@);
        }
        if e >= t.len() {
            assert(split_from(t@, ',', i as int) == seq![piece@]);
            finished = true;
        } else {
            assert(split_from(t@, ',', i as int) == seq![piece@] + split_from(t@, ',', e + 1));
            assert(all =~= done + split_from(t@, ',', e + 1));
            i = e + 1;
        }
    }
    Some(out)
}

/// A spoiled prefix spoils every extension.
proof fn lemma_shape_pieces_none(pre: Seq<Seq<char>>, all: Seq<Seq<char>>)
    requires
        shape_from_pieces(pre) is None,
        pre.len() <= all.len(),
        all.subrange(0, pre.len() as int) == pre,
    ensures
        shape_from_pieces(all) is None,
    decreases all.len() - pre.len(),
{
    if pre.len() < all.len() {
        let next = all.subrange(0, pre.len() as int + 1);
        assert(next.drop_last() =~= pre);
        assert(all.subrange(0, next.len() as int) =~= next);
        lemma_shape_pieces_none(next, all);
    } else {
        assert(all =~= pre);
    }
}

/// Number of elements of an array with this shape (product, wrapping on overflow).
pub fn shape_num_elements(shape: &[usize]) -> (n: usize)
    ensures
        n == wrapped_product(shape@),
{
    let mut acc: usize = 1;
    let mut i: usize = 0;
    while i < shape.len()
        invariant
            i <= shape.len(),
            acc == wrapped_product(shape@.subrange(0, i as int)),
        decreases shape.len() - i,
    {
        let x = shape[i];
        assert(shape@.subrange(0, i + 1).drop_last() =~= shape@.subrange(0, i as int));
        let a = acc as u128;
        let b = x as u128;
        assert(a * b <= 0xffff_ffff_ffff_ffff_u128 * 0xffff_ffff_ffff_ffff_u128) by (nonlinear_arith)
            requires
                a <= 0xffff_ffff_ffff_ffff_u128,
                b <= 0xffff_ffff_ffff_ffff_u128,
        ;
        acc = ((a * b) % (usize::MAX as u128 + 1)) as usize;
        i = i + 1;
    }
    assert(shape@.subrange(0, i as int) =~= shape@);
    acc
}

/// `s` with each `\'` turned into `'`.
fn unescape_quote_chars(s: &[char]) -> (r: Vec<char>)
    ensures
        r@ == unescape_quotes(s@),
{
    let mut out: Vec<char> = Vec::new();
    let mut i: usize = 0;
    assert(s@.subrange(0, s.len() as int) =~= s@);
    while i < s.len()
        invariant
            i <= s.len(),
            unescape_quotes(s@) == out@ + unescape_quotes(s@.subrange(i as int, s.len() as int)),
        decreases s.len() - i,
    {
        let ghost rest = s@.subrange(i as int, s.len() as int);
        if i + 1 < s.len() && s[i] == '\\' && s[i + 1] == '\'' {
            out.push('\'');
            assert(rest.subrange(2, rest.len() as int) =~= s@.subrange(i + 2, s.len() as int));
            i = i + 2;
        } else {
            out.push(s[i]);
            assert(rest.subrange(1, rest.len() as int) =~= s@.subrange(i + 1, s.len() as int));
            i = i + 1;
        }
    }
    assert(s@.subrange(i as int, s.len() as int) =~= Seq::<char>::empty());
    out
}

/// The fields of a layout read from the header at `off - hlen..off` of `bytes`
/// for data of `logical_len` bytes.
pub open spec fn npy_layout_fields(bytes: Seq<u8>, logical_len: usize, hlen: int, off: int, l: ArrayLayoutSummary) -> bool {
    let header = latin1(bytes.subrange(off - hlen, off));
    &&& l.header_region_bytes == Some(hlen as usize)
    &&& l.data_offset == Some(off as usize)
    &&& l.data_region_bytes == Some(
        (if logical_len >= off {
            logical_len - off
        } else {
            0
        }) as usize,
    )
    &&& opt_text(l.format_version) == Some(
        if bytes[6] == 1 {
            "1.0"@
        } else {
            "2.0"@
        },
    )
    &&& opt_text(l.dtype) == (match regex_group(RE_DESCR@, header, 1) {
        Some(d) => Some(unescape_quotes(d)),
        None => None,
    })
    &&& (match l.shape {
        Some(v) => regex_group(RE_SHAPE@, header, 1) matches Some(g) && spec_shape_tuple(
            g,
        ) == Some(v@),
        None => regex_group(RE_SHAPE@, header, 1) is None || spec_shape_tuple(
            regex_group(RE_SHAPE@, header, 1)->0,
        ) is None,
    })
    &&& l.fortran_order == (match regex_group(RE_FORTRAN@, header, 1) {
        Some(f) => Some(f == "True"@),
        None => None,
    })
    &&& l.expected_data_bytes_from_dtype == (match (l.dtype, l.shape) {
        (Some(d), Some(sh)) => match spec_descr_nbytes(d@) {
            Some(el) => if el * wrapped_product(sh@) <= usize::MAX {
                Some((el * wrapped_product(sh@)) as usize)
            } else {
                None
            },
            None => None,
        },
        _ => None,
    })
}

/// `l` is the layout the header prefix of `bytes` gives (for data of
/// `logical_len` bytes).
pub open spec fn npy_layout_holds(bytes: Seq<u8>, logical_len: usize, l: ArrayLayoutSummary) -> bool {
    match npy_header_bounds(bytes) {
        Ok((hlen, off)) => npy_layout_fields(bytes, logical_len, hlen, off, l),
        Err(_) => false,
    }
}

/// Law: parsing reads nothing past the header. Two buffers that agree up to
/// the data offset of the first give the same header bounds, and a layout
/// describes the one exactly when it describes the other.
pub proof fn law_npy_parse_reads_header_only(b1: Seq<u8>, b2: Seq<u8>, logical_len: usize, l: ArrayLayoutSummary)
    requires
        npy_header_bounds(b1) matches Ok((hlen, off)) && off <= b2.len() && b2.subrange(0, off)
            == b1.subrange(0, off),
    ensures
        npy_header_bounds(b2) == npy_header_bounds(b1),
        npy_layout_holds(b1, logical_len, l) <==> npy_layout_holds(b2, logical_len, l),
{
    let (hlen, off) = npy_header_bounds(b1)->Ok_0;
    assert forall|i: int| 0 <= i < off implies b1[i] == b2[i] by {
        assert(b1.subrange(0, off)[i] == b2.subrange(0, off)[i]);
    }
    assert(b1.len() >= 10 && off >= 10 + hlen && hlen >= 0);
    if b1[6] == 2 {
        assert(off == 12 + hlen);
    }
    assert(npy_header_bounds(b2) == npy_header_bounds(b1));
    assert(b1.subrange(off - hlen, off) =~= b2.subrange(off - hlen, off));
}

/// Parses the `.npy` header from a prefix of `bytes`; `logical_len` is the full
/// size of the array's data (file or zip entry). `Err` when the buffer is too short,
/// the magic is wrong, the version is not 1.0 or 2.0, the declared header length
/// exceeds the cap, or the prefix does not hold the whole header.
pub fn parse_npy_prefix(bytes: &[u8], logical_len: usize) -> (r: Result<ArrayLayoutSummary, String>)
    ensures
        match npy_header_bounds(bytes@) {
            Err(msg) => r matches Err(e) && e@ == msg,
            Ok((hlen, off)) => r matches Ok(l) && npy_layout_fields(bytes@, logical_len, hlen, off, l),
        },
{
    if bytes.len() < 10 {
        return Err("NPY too short for header prefix".to_owned());
    }
    if !(bytes[0] == 0x93 && bytes[1] == 0x4e && bytes[2] == 0x55 && bytes[3] == 0x4d && bytes[4]
        == 0x50 && bytes[5] == 0x59) {
        return Err("missing \\x93NUMPY magic".to_owned());
    }
    let major = bytes[6];
    let minor = bytes[7];
    let (header_region, data_offset): (usize, usize) = if major == 1 && minor == 0 {
        let hlen = bytes[8] as usize + bytes[9] as usize * 256;
        if hlen > MAX_HEADER_REGION {
            return Err(length_message(1, hlen));
        }
        if bytes.len() - 10 < hlen {
            return Err(truncated_message(1, hlen, bytes.len() - 10));
        }
        (hlen, 10 + hlen)
    } else if major == 2 && minor == 0 {
        if bytes.len() < 12 {
            return Err("NPY v2 too short for header length".to_owned());
        }
        let hlen = bytes[8] as usize + bytes[9] as usize * 0x100 + bytes[10] as usize * 0x1_0000
            + bytes[11] as usize * 0x100_0000;
        if hlen > MAX_HEADER_REGION {
            return Err(length_message(2, hlen));
        }
        if bytes.len() - 12 < hlen {
            return Err(truncated_message(2, hlen, bytes.len() - 12));
        }
        (hlen, 12 + hlen)
    } else {
        return Err(version_message(major, minor));
    };
    let header_start = data_offset - header_region;
    let header_bytes = vstd::slice::slice_subrange(bytes, header_start, data_offset);
    let header_chars = latin1_to_string(header_bytes);
    let header_str = string_of(header_chars.as_slice());
    let descr = match regex_capture(RE_DESCR, header_str.as_str(), 1) {
        Some(d) => Some(string_of(unescape_quote_chars(chars_of(d.as_str()).as_slice()).as_slice())),
        None => None,
    };
    let shape = match regex_capture(RE_SHAPE, header_str.as_str(), 1) {
        Some(g) => parse_shape_tuple(chars_of(g.as_str()).as_slice()),
        None => None,
    };
    let fortran_order = match regex_capture(RE_FORTRAN, header_str.as_str(), 1) {
        Some(f) => {
            let fc = chars_of(f.as_str());
            let tr = chars_of("True");
            Some(crate::csv::same_chars(fc.as_slice(), tr.as_slice()))
        },
        None => None,
    };
    let format_version = if major == 1 {
        Some("1.0".to_owned())
    } else {
        Some("2.0".to_owned())
    };
    let data_region_bytes = logical_len.saturating_sub(data_offset);
    let expected_data_bytes_from_dtype = match (&descr, &shape) {
        (Some(d), Some(sh)) => match numpy_descr_element_nbytes(d.as_str()) {
            Some(el) => el.checked_mul(shape_num_elements(sh.as_slice())),
            None => None,
        },
        _ => None,
    };
    Ok(ArrayLayoutSummary {
        format_version,
        dtype: descr,
        shape,
        fortran_order,
        header_region_bytes: Some(header_region),
        data_offset: Some(data_offset),
        data_region_bytes: Some(data_region_bytes),
        expected_data_bytes_from_dtype,
    })
}

/// `"NPY v{version} header length {hlen} exceeds cap"`.
fn length_message(version: u8, hlen: usize) -> (s: String)
    requires
        version == 1 || version == 2,
    ensures
        s@ == "NPY v"@ + decimal(version as nat) + " header length "@ + decimal(hlen as nat)
            + " exceeds cap"@,
{
    let mut v = chars_of("NPY v");
    append_chars(&mut v, decimal_chars(version as usize).as_slice());
    append_chars(&mut v, chars_of(" header length ").as_slice());
    append_chars(&mut v, decimal_chars(hlen).as_slice());
    append_chars(&mut v, chars_of(" exceeds cap").as_slice());
    string_of(v.as_slice())
}

/// `"NPY v{version} truncated: need {hlen} header bytes, have {have}"`.
fn truncated_message(version: u8, hlen: usize, have: usize) -> (s: String)
    requires
        version == 1 || version == 2,
    ensures
        s@ == "NPY v"@ + decimal(version as nat) + " truncated: need "@ + decimal(hlen as nat)
            + " header bytes, have "@ + decimal(have as nat),
{
    let mut v = chars_of("NPY v");
    append_chars(&mut v, decimal_chars(version as usize).as_slice());
    append_chars(&mut v, chars_of(" truncated: need ").as_slice());
    append_chars(&mut v, decimal_chars(hlen).as_slice());
    append_chars(&mut v, chars_of(" header bytes, have ").as_slice());
    append_chars(&mut v, decimal_chars(have).as_slice());
    string_of(v.as_slice())
}

/// `"unsupported NPY version {major}.{minor}"`.
fn version_message(major: u8, minor: u8) -> (s: String)
    ensures
        s@ == "unsupported NPY version "@ + decimal(major as nat) + "."@ + decimal(minor as nat),
{
    let mut v = chars_of("unsupported NPY version ");
    append_chars(&mut v, decimal_chars(major as usize).as_slice());
    append_chars(&mut v, chars_of(".").as_slice());
    append_chars(&mut v, decimal_chars(minor as usize).as_slice());
    string_of(v.as_slice())
}

} // verus!
