//! MATLAB `.mat` helpers: the SciPy header fix-up, the v7.3 (HDF5) answer, shape
//! tests, and the bounded counts used for character and numeric summaries.

use vstd::prelude::*;
use vstd::utf8::encode_utf8;
use vstd::string::StringSliceAdditionalSpecFns;

use crate::results::ArrayLayoutSummary;
use crate::text::{has_prefix, string_of};

verus! {

/// Bytes of the MAT-5 human-readable description.
pub const MAT5_HEADER_DESC_BYTES: usize = 116;

/// Metadata of a `.mat` file.
pub struct MatMetadata {
    pub byte_count: usize,
    pub mat_format: Option<String>,
    pub variable_count: Option<usize>,
    pub variables_scanned: Option<usize>,
    pub file_parse_error: Option<String>,
}

// ---------------------------------------------------------------------------
// Header
// ---------------------------------------------------------------------------

/// The description SciPy writes, without the comma the official header has
/// after `MAT-file`.
pub open spec fn scipy_prefix() -> Seq<u8> {
    encode_utf8("MATLAB 5.0 MAT-file Platform:"@)
}

/// The header as the MAT reader expects it: for a file of at least 128 bytes
/// whose description starts like SciPy's, a comma inserted at byte 19 and the
/// rest of the description shifted right by one (its last byte dropped).
pub open spec fn spec_normalized_header(data: Seq<u8>) -> Seq<u8> {
    if data.len() < 128 || !has_prefix(data.subrange(0, 116), scipy_prefix()) {
        data
    } else {
        Seq::new(
            data.len(),
            |i: int|
                if i == 19 {
                    0x2c
                } else if 20 <= i < 116 {
                    data[i - 1]
                } else {
                    data[i]
                },
        )
    }
}

/// Normalizes a SciPy-written MAT-5 description for the MAT reader.
pub fn normalize_scipy_mat5_header_for_matrw(data: &[u8]) -> (r: Vec<u8>)
    ensures
        r@ == spec_normalized_header(data@),
{
    let mut buf: Vec<u8> = Vec::new();
    let mut k: usize = 0;
    while k < data.len()
        invariant
            k <= data.len(),
            buf@ == data@.subrange(0, k as int),
        decreases data.len() - k,
    {
        buf.push(data[k]);
        k = k + 1;
    }
    assert(data@.subrange(0, k as int) =~= data@);
    if data.len() < 128 {
        return buf;
    }
    let prefix = "MATLAB 5.0 MAT-file Platform:".as_bytes();
    let mut j: usize = 0;
    let mut same = prefix.len() <= MAT5_HEADER_DESC_BYTES;
    while same && j < prefix.len()
        invariant
            data@.len() >= 128,
            prefix@ == scipy_prefix(),
            j <= prefix.len(),
            same ==> prefix.len() <= 116,
            same ==> forall|m: int| 0 <= m < j ==> data@[m] == prefix@[m],
            !same ==> !has_prefix(data@.subrange(0, 116), scipy_prefix()),
        decreases prefix.len() - j,
    {
        if data[j] != prefix[j] {
            same = false;
            assert(data@.subrange(0, 116).subrange(0, prefix@.len() as int)[j as int] != prefix@[j as int]);
        }
        j = j + 1;
    }
    if !same {
        return buf;
    }
    assert(data@.subrange(0, 116).subrange(0, prefix@.len() as int) =~= prefix@);
    let ghost orig = buf@;
    let mut i: usize = 115;
    while i >= 20
        invariant
            19 <= i <= 115,
            buf@.len() == orig.len(),
            orig == data@,
            orig.len() >= 128,
            forall|m: int| 0 <= m <= i ==> buf@[m] == orig[m],
            forall|m: int| i < m < 116 ==> buf@[m] == orig[m - 1],
            forall|m: int| 116 <= m < orig.len() ==> buf@[m] == orig[m],
        decreases i,
    {
        let prev = buf[i - 1];
        buf.set(i, prev);
        i = i - 1;
    }
    buf.set(19, 0x2c);
    assert(buf@ =~= spec_normalized_header(data@));
    buf
}

/// The answer for MAT v7.3 files, which are HDF5 and not read here.
pub open spec fn v73_error_text() -> Seq<char> {
    "MAT v7.3 (HDF5) is not parsed here; open as HDF5 or re-save as -v7 in MATLAB or SciPy (format='5')"@
}

/// Metadata for a MAT v7.3 (HDF5) file: the format and the reason it is not read.
pub fn mat_metadata_v73_hdf5_unsupported(byte_count: usize) -> (m: MatMetadata)
    ensures
        m.byte_count == byte_count,
        m.mat_format matches Some(f) && f@ == "v7.3"@,
        m.variable_count is None,
        m.variables_scanned is None,
        m.file_parse_error matches Some(e) && e@ == v73_error_text(),
{
    MatMetadata {
        byte_count,
        mat_format: Some("v7.3".to_owned()),
        variable_count: None,
        variables_scanned: None,
        file_parse_error: Some(
            "MAT v7.3 (HDF5) is not parsed here; open as HDF5 or re-save as -v7 in MATLAB or SciPy (format='5')".to_owned(),
        ),
    }
}

// ---------------------------------------------------------------------------
// Shapes
// ---------------------------------------------------------------------------

/// The layout's shape is exactly 1×1.
pub fn is_mat_scalar_1x1(layout: &ArrayLayoutSummary) -> (b: bool)
    ensures
        b == (layout.shape matches Some(s) && s@ == seq![1usize, 1usize]),
{
    match &layout.shape {
        Some(s) => {
            let r = s.len() == 2 && s[0] == 1 && s[1] == 1;
            if r {
                assert(s@ =~= seq![1usize, 1usize]);
            }
            r
        },
        None => false,
    }
}

/// The layout has a shape with at least one axis of length 1 (a character row
/// or column).
pub fn is_char_vector_shape(layout: &ArrayLayoutSummary) -> (b: bool)
    ensures
        b == (layout.shape matches Some(s) && s@.contains(1usize)),
{
    match &layout.shape {
        Some(s) => {
            let mut i: usize = 0;
            while i < s.len()
                invariant
                    i <= s.len(),
                    layout.shape == Some(*s),
                    forall|k: int| 0 <= k < i ==> s@[k] != 1,
                decreases s.len() - i,
            {
                if s[i] == 1 {
                    assert(s@[i as int] == 1usize);
                    assert(s@.contains(1usize));
                    return true;
                }
                i = i + 1;
            }
            false
        },
        None => false,
    }
}

/// The characters as a string.
pub fn chars_to_string(chars: &[char]) -> (s: String)
    ensures
        s@ == chars@,
{
    string_of(chars)
}

// ---------------------------------------------------------------------------
// Bounded counts
// ---------------------------------------------------------------------------

/// Distinct characters of `chars`, counting stopped at `cap`.
pub open spec fn spec_bounded_unique(chars: Seq<char>, cap: usize) -> nat {
    let n = chars.to_set().len();
    if n < cap {
        n
    } else {
        cap as nat
    }
}

proof fn lemma_push_contains(s: Seq<char>, a: char, x: char)
    ensures
        s.push(a).contains(x) <==> (s.contains(x) || x == a),
{
    if s.push(a).contains(x) {
        let k = choose|k: int| 0 <= k < s.len() + 1 && s.push(a)[k] == x;
        if k < s.len() {
            assert(s[k] == x);
        }
    }
    if s.contains(x) {
        let k = choose|k: int| 0 <= k < s.len() && s[k] == x;
        assert(s.push(a)[k] == x);
    }
    if x == a {
        assert(s.push(a)[s.len() as int] == x);
    }
}

/// Number of distinct characters, counted up to `cap`.
pub fn bounded_unique_chars(chars: &[char], cap: usize) -> (n: usize)
    ensures
        n == spec_bounded_unique(chars@, cap),
{
    let mut seen: Vec<char> = Vec::new();
    let mut i: usize = 0;
    while i < chars.len()
        invariant
            i <= chars.len(),
            seen@.no_duplicates(),
            seen@.to_set() == chars@.take(i as int).to_set(),
            seen.len() <= cap,
        decreases chars.len() - i,
    {
        proof {
            seen@.unique_seq_to_set();
        }
        if seen.len() >= cap {
            proof {
                vstd::set_lib::lemma_len_subset(chars@.take(i as int).to_set(), chars@.to_set());
                vstd::seq_lib::seq_to_set_is_finite(chars@);
                assert forall|c: char| chars@.take(i as int).to_set().contains(c) implies chars@.to_set().contains(c) by {
                    let k = choose|k: int| 0 <= k < i && chars@.take(i as int)[k] == c;
                    assert(chars@[k] == c);
                }
            }
            return cap;
        }
        let c = chars[i];
        let mut k: usize = 0;
        let mut found = false;
        while k < seen.len()
            invariant
                k <= seen.len(),
                found == (exists|m: int| 0 <= m < k && seen@[m] == c),
            decreases seen.len() - k,
        {
            if seen[k] == c {
                found = true;
            }
            k = k + 1;
        }
        let ghost before = seen@;
        if !found {
            seen.push(c);
            assert(seen@.no_duplicates());
        }
        proof {
            let t0 = chars@.take(i as int);
            assert(chars@.take(i + 1) =~= t0.push(c));
            assert forall|x: char| seen@.contains(x) <==> chars@.take(i + 1).contains(x) by {
                lemma_push_contains(t0, c, x);
                lemma_push_contains(before, c, x);
                assert(t0.to_set().contains(x) == t0.contains(x));
                assert(before.to_set().contains(x) == before.contains(x));
                if found {
                    let m = choose|m: int| 0 <= m < before.len() && before[m] == c;
                    assert(before.contains(c));
                }
            }
            assert(seen@.to_set() =~= chars@.take(i + 1).to_set());
        }
        i = i + 1;
    }
    proof {
        seen@.unique_seq_to_set();
        assert(chars@.take(i as int) =~= chars@);
    }
    seen.len()
}

/// Stride that keeps at most `cap` of `len` items: 1 when they all fit, else
/// `len / cap` rounded up.
pub open spec fn spec_sample_step(len: usize, cap: usize) -> int {
    if len <= cap {
        1
    } else {
        (len + cap - 1) / (cap as int)
    }
}

/// Sampling stride for at most `cap` of `len` items.
pub fn sample_step(len: usize, cap: usize) -> (s: usize)
    requires
        len <= cap || cap > 0,
    ensures
        s == spec_sample_step(len, cap),
{
    if len <= cap {
        1
    } else {
        let q = (len - 1) / cap + 1;
        assert((len + cap - 1) / (cap as int) == (len - 1) / (cap as int) + 1) by (nonlinear_arith)
            requires
                cap > 0,
                len > 0,
        {
            assert((len + cap - 1) == (len - 1) + cap * 1);
        }
        q
    }
}

} // verus!
