//! Bounded sampling of homogeneous `NumPy` arrays into a row/column grid.
//!
//! Object (`O`), structured, datetime (`M8`/`m8`), complex and half-precision dtypes are
//! skipped; ranks 0–2 only.

use vstd::prelude::*;

use crate::npy::{shape_num_elements, spec_descr_nbytes, numpy_descr_element_nbytes, wrapped_product};
use crate::results::{ArrayLayoutSummary, ColumnarCommonFields, StructuredEncoding};
use crate::text::{chars_of, decimal, trim, trim_chars, is_space};

verus! {

// ---------------------------------------------------------------------------
// Specifications
// ---------------------------------------------------------------------------

/// `x`, or `usize::MAX` when it is larger (saturating arithmetic).
pub open spec fn sat(x: int) -> int {
    if x > usize::MAX {
        usize::MAX as int
    } else {
        x
    }
}

/// Byte-order and alignment marks that may start a `descr`.
pub open spec fn is_order_mark(c: char) -> bool {
    c == '<' || c == '>' || c == '|' || c == '='
}

/// `s` without its leading order marks.
pub open spec fn strip_order_marks(s: Seq<char>) -> Seq<char>
    decreases s.len(),
{
    if s.len() > 0 && is_order_mark(s[0]) {
        strip_order_marks(s.subrange(1, s.len() as int))
    } else {
        s
    }
}

/// `s` starts with `c1` then `c2`.
pub open spec fn starts2(s: Seq<char>, c1: char, c2: char) -> bool {
    s.len() >= 2 && s[0] == c1 && s[1] == c2
}

/// Dtypes without string-based tabular stats: structured, object, datetime,
/// complex, half precision, or empty.
pub open spec fn spec_skips_stats(descr: Seq<char>) -> bool {
    let t = trim(descr);
    let rest = strip_order_marks(t);
    ||| t.len() > 0 && (t[0] == '[' || t[0] == '{')
    ||| rest.len() == 0
    ||| starts2(rest, 'f', '2')
    ||| starts2(rest, 'f', '1') && rest.len() >= 3 && rest[2] == '6'
    ||| rest[0] == 'O' || rest[0] == 'M' || rest[0] == 'm' || rest[0] == 'c'
}

/// Rows and columns of a rank 0–2 shape.
pub open spec fn spec_table_shape(shape: Seq<usize>) -> Option<(usize, usize)> {
    if shape.len() == 0 {
        Some((1, 1))
    } else if shape.len() == 1 {
        Some((shape[0], 1))
    } else if shape.len() == 2 {
        Some((shape[0], shape[1]))
    } else {
        None
    }
}

/// Elements of the payload prefix needed to sample the first `sample_rows` rows.
pub open spec fn spec_prefix_elems(rows: int, cols: int, rank: int, fortran: bool, sample_rows: int) -> int {
    let sr = if sample_rows < rows {
        sample_rows
    } else {
        rows
    };
    if sr == 0 {
        0
    } else if rank == 0 || rank == 1 {
        sr
    } else if rank == 2 && !fortran {
        sat(sr * cols)
    } else if rank == 2 {
        sat((sr - 1) + (if cols > 0 {
            cols - 1
        } else {
            0
        }) * rows + 1)
    } else {
        0
    }
}

/// Bytes needed for `k` sampled rows.
pub open spec fn need_bytes(rows: int, cols: int, rank: int, fortran: bool, elem: int, k: int) -> int {
    sat(spec_prefix_elems(rows, cols, rank, fortran, k) * elem)
}

/// Big-endian value of a byte string.
pub open spec fn uint_be(b: Seq<u8>) -> nat
    decreases b.len(),
{
    if b.len() == 0 {
        0
    } else {
        uint_be(b.drop_last()) * 256 + b.last() as nat
    }
}

/// `256^n`.
pub open spec fn pow256(n: nat) -> nat
    decreases n,
{
    if n == 0 {
        1
    } else {
        256 * pow256((n - 1) as nat)
    }
}

/// A decoded sample cell: an integer, or the raw bits of a float.
pub enum CellValue {
    Int(i128),
    Float32(u32),
    Float64(u64),
}

/// What kind of cell a `descr` decodes to: (width in bytes, signed, float).
pub open spec fn cell_kind(rest: Seq<char>) -> Option<(nat, bool, bool)> {
    if rest.len() > 0 && rest[0] == '?' {
        Some((1, false, false))
    } else if starts2(rest, 'b', '1') || (rest.len() == 1 && rest[0] == 'b') {
        Some((1, false, false))
    } else if starts2(rest, 'i', '8') {
        Some((8, true, false))
    } else if starts2(rest, 'u', '8') {
        Some((8, false, false))
    } else if starts2(rest, 'i', '4') {
        Some((4, true, false))
    } else if starts2(rest, 'u', '4') {
        Some((4, false, false))
    } else if starts2(rest, 'i', '2') {
        Some((2, true, false))
    } else if starts2(rest, 'u', '2') {
        Some((2, false, false))
    } else if starts2(rest, 'i', '1') {
        Some((1, true, false))
    } else if starts2(rest, 'u', '1') {
        Some((1, false, false))
    } else if starts2(rest, 'f', '4') {
        Some((4, false, true))
    } else if starts2(rest, 'f', '8') {
        Some((8, false, true))
    } else {
        None
    }
}

/// Unsigned value of the first `n` bytes of `chunk` in the dtype's byte order.
pub open spec fn raw_value(chunk: Seq<u8>, n: nat, little: bool) -> nat {
    if little {
        uint_be(chunk.subrange(0, n as int).reverse())
    } else {
        uint_be(chunk.subrange(0, n as int))
    }
}

/// The cell that `chunk` holds under `descr`.
pub open spec fn spec_decode_cell(descr: Seq<char>, chunk: Seq<u8>) -> Option<CellValue> {
    let t = trim(descr);
    let little = !(t.len() > 0 && t[0] == '>');
    match cell_kind(strip_order_marks(t)) {
        Some((n, signed, float)) => if chunk.len() < n {
            None
        } else {
            let v = raw_value(chunk, n, little);
            if float {
                if n == 4 {
                    Some(CellValue::Float32(v as u32))
                } else {
                    Some(CellValue::Float64(v as u64))
                }
            } else if signed && v >= pow256(n) / 2 {
                Some(CellValue::Int((v - pow256(n)) as i128))
            } else {
                Some(CellValue::Int(v as i128))
            }
        },
        None => None,
    }
}

/// Decimal text of an integer (`{v}`).
pub open spec fn int_text(v: int) -> Seq<char> {
    if v < 0 {
        seq!['-'] + decimal((-v) as nat)
    } else {
        decimal(v as nat)
    }
}

// ---------------------------------------------------------------------------
// Executable helpers
// ---------------------------------------------------------------------------

/// `a * b`, saturating at `usize::MAX`.
pub fn sat_mul(a: usize, b: usize) -> (r: usize)
    ensures
        r as int == sat(a * b),
{
    match a.checked_mul(b) {
        Some(v) => v,
        None => usize::MAX,
    }
}

/// Index of the first character after the leading order marks of `s`.
fn skip_order_marks(s: &[char], i: usize) -> (j: usize)
    requires
        i <= s.len(),
    ensures
        i <= j <= s.len(),
        s@.subrange(j as int, s.len() as int) == strip_order_marks(s@.subrange(i as int, s.len() as int)),
    decreases s.len() - i,
{
    let ghost rest = s@.subrange(i as int, s.len() as int);
    if i < s.len() && (s[i] == '<' || s[i] == '>' || s[i] == '|' || s[i] == '=') {
        assert(rest.subrange(1, rest.len() as int) =~= s@.subrange(i + 1, s.len() as int));
        skip_order_marks(s, i + 1)
    } else {
        i
    }
}

/// `descr` values without string-based tabular stats (object, structured, datetime,
/// complex, half precision).
pub fn numpy_descr_skips_tabular_stats(descr: &str) -> (b: bool)
    ensures
        b == spec_skips_stats(descr@),
{
    let t = trim_chars(chars_of(descr).as_slice());
    if t.len() > 0 && (t[0] == '[' || t[0] == '{') {
        return true;
    }
    let j = skip_order_marks(t.as_slice(), 0);
    assert(t@.subrange(0, t.len() as int) =~= t@);
    let rest = crate::text::copy_range(t.as_slice(), j, t.len());
    if rest.len() == 0 {
        return true;
    }
    if rest.len() >= 2 && rest[0] == 'f' && rest[1] == '2' {
        return true;
    }
    if rest.len() >= 3 && rest[0] == 'f' && rest[1] == '1' && rest[2] == '6' {
        return true;
    }
    let head = rest[0];
    head == 'O' || head == 'M' || head == 'm' || head == 'c'
}

/// Rows and columns of a rank 0–2 shape (scalar as 1×1, vector as n×1).
pub fn table_shape(shape: &[usize]) -> (r: Option<(usize, usize)>)
    ensures
        r == spec_table_shape(shape@),
{
    if shape.len() == 0 {
        Some((1, 1))
    } else if shape.len() == 1 {
        Some((shape[0], 1))
    } else if shape.len() == 2 {
        Some((shape[0], shape[1]))
    } else {
        None
    }
}

/// Linear index of cell (`row`, `col`) in C or Fortran order.
pub fn elem_offset_2d(row: usize, col: usize, rows: usize, cols: usize, fortran_order: bool) -> (i: usize)
    requires
        fortran_order ==> row + col * rows <= usize::MAX,
        !fortran_order ==> col + row * cols <= usize::MAX,
    ensures
        i == if fortran_order {
            row + col * rows
        } else {
            col + row * cols
        },
{
    if fortran_order {
        row + col * rows
    } else {
        col + row * cols
    }
}

/// Elements of payload needed from the data offset to sample up to `sample_rows`
/// rows (rank 0–2, C or Fortran order); saturates at `usize::MAX`.
pub fn contiguous_payload_prefix_elems(
    rows: usize,
    cols: usize,
    rank: usize,
    fortran_order: bool,
    sample_rows: usize,
) -> (n: usize)
    ensures
        n as int == spec_prefix_elems(rows as int, cols as int, rank as int, fortran_order, sample_rows as int),
{
    let sr = if sample_rows < rows {
        sample_rows
    } else {
        rows
    };
    if sr == 0 {
        return 0;
    }
    if rank == 0 || rank == 1 {
        sr
    } else if rank == 2 && !fortran_order {
        sat_mul(sr, cols)
    } else if rank == 2 {
        let r = sr - 1;
        let c = cols.saturating_sub(1);
        match c.checked_mul(rows) {
            Some(cr) => cr.saturating_add(r).saturating_add(1),
            None => {
                assert(c * rows > usize::MAX);
                usize::MAX
            },
        }
    } else {
        0
    }
}

/// Sampling more rows never needs fewer payload elements.
proof fn lemma_prefix_monotone(rows: int, cols: int, rank: int, fortran: bool, a: int, b: int)
    requires
        0 <= a <= b,
        0 <= rows,
        0 <= cols,
    ensures
        spec_prefix_elems(rows, cols, rank, fortran, a) <= spec_prefix_elems(
            rows,
            cols,
            rank,
            fortran,
            b,
        ),
{
    let sa = if a < rows {
        a
    } else {
        rows
    };
    let sb = if b < rows {
        b
    } else {
        rows
    };
    assert(sa <= sb);
    assert(sa * cols <= sb * cols) by (nonlinear_arith)
        requires
            0 <= sa <= sb,
            0 <= cols,
    ;
}

/// Largest number of rows (at most `min(rows, max_csv)`) whose payload prefix fits
/// in `avail` bytes; 0 when nothing fits or the element size is zero.
pub fn max_sample_rows_in_prefix(
    rows: usize,
    cols: usize,
    rank: usize,
    fortran: bool,
    elem_size: usize,
    avail: usize,
    max_csv: usize,
) -> (k: usize)
    ensures
        ({
            let hi = if rows < max_csv {
                rows
            } else {
                max_csv
            };
            &&& (hi == 0 || elem_size == 0 || avail < elem_size) ==> k == 0
            &&& !(hi == 0 || elem_size == 0 || avail < elem_size) ==> {
                &&& k <= hi
                &&& need_bytes(rows as int, cols as int, rank as int, fortran, elem_size as int, k as int) <= avail
                &&& forall|j: int|
                    k < j <= hi ==> need_bytes(rows as int, cols as int, rank as int, fortran, elem_size as int, j) > avail
            }
        }),
{
    let hi = if rows < max_csv {
        rows
    } else {
        max_csv
    };
    if hi == 0 || elem_size == 0 || avail < elem_size {
        return 0;
    }
    let mut lo: usize = 0;
    let mut hi2: usize = hi;
    while lo < hi2
        invariant
            lo <= hi2 <= hi,
            need_bytes(rows as int, cols as int, rank as int, fortran, elem_size as int, lo as int) <= avail,
            forall|j: int|
                hi2 < j <= hi ==> need_bytes(rows as int, cols as int, rank as int, fortran, elem_size as int, j) > avail,
        decreases hi2 - lo,
    {
        let mid = lo + (hi2 - lo) / 2 + (hi2 - lo) % 2;
        let elems = contiguous_payload_prefix_elems(rows, cols, rank, fortran, mid);
        let need = sat_mul(elems, elem_size);
        if need <= avail {
            lo = mid;
        } else {
            assert forall|j: int| mid <= j <= hi implies need_bytes(
                rows as int,
                cols as int,
                rank as int,
                fortran,
                elem_size as int,
                j,
            ) > avail by {
                lemma_prefix_monotone(rows as int, cols as int, rank as int, fortran, mid as int, j);
                let ea = spec_prefix_elems(rows as int, cols as int, rank as int, fortran, mid as int);
                let eb = spec_prefix_elems(rows as int, cols as int, rank as int, fortran, j);
                assert(ea * elem_size <= eb * elem_size) by (nonlinear_arith)
                    requires
                        0 <= ea <= eb,
                        0 <= elem_size,
                ;
            }
            hi2 = mid - 1;
        }
    }
    lo
}

/// Smallest file length whose data covers the sampled rows: the data offset plus
/// the payload prefix for `min(rows, cap)` rows (saturating); `None` without a data
/// offset or shape.
pub fn min_file_bytes_for_column_stats(
    layout: &ArrayLayoutSummary,
    elem_size: usize,
    rows: usize,
    cols: usize,
    cap: usize,
) -> (r: Option<usize>)
    ensures
        match (layout.data_offset, layout.shape) {
            (Some(off), Some(sh)) => r == Some(
                sat(off + need_bytes(
                    rows as int,
                    cols as int,
                    sh@.len() as int,
                    match layout.fortran_order {
                        Some(f) => f,
                        None => false,
                    },
                    elem_size as int,
                    if rows < cap {
                        rows as int
                    } else {
                        cap as int
                    },
                )) as usize,
            ),
            _ => r is None,
        },
{
    let data_offset = match layout.data_offset {
        Some(o) => o,
        None => return None,
    };
    let rank = match &layout.shape {
        Some(sh) => sh.len(),
        None => return None,
    };
    let sample_rows = if rows < cap {
        rows
    } else {
        cap
    };
    let fortran = match layout.fortran_order {
        Some(f) => f,
        None => false,
    };
    let payload_elems = contiguous_payload_prefix_elems(rows, cols, rank, fortran, sample_rows);
    let prefix = sat_mul(payload_elems, elem_size);
    Some(data_offset.saturating_add(prefix))
}

/// The bytes needed for column statistics (`min_file_bytes_for_column_stats`):
/// the data offset plus the sampled payload prefix, saturated, where the layout
/// has a data offset and a shape.
pub open spec fn spec_min_file_bytes(
    layout: ArrayLayoutSummary,
    elem_size: usize,
    rows: usize,
    cols: usize,
    cap: usize,
) -> Option<usize> {
    match (layout.data_offset, layout.shape) {
        (Some(off), Some(sh)) => Some(
            sat(off + need_bytes(
                rows as int,
                cols as int,
                sh@.len() as int,
                match layout.fortran_order {
                    Some(f) => f,
                    None => false,
                },
                elem_size as int,
                if rows < cap {
                    rows as int
                } else {
                    cap as int
                },
            )) as usize,
        ),
        _ => None,
    }
}

/// Bytes to read from a ZIP member of `size` bytes: where the dtype is a simple
/// one with a known element size and the shape is a table, the bytes needed for
/// column statistics (512 KiB without a data offset), else 512 KiB; never more
/// than the member size.
pub open spec fn spec_target_read_len(layout: ArrayLayoutSummary, size: usize, cap: usize) -> usize {
    let fallback: usize = if size < 512 * 1024 {
        size
    } else {
        (512 * 1024) as usize
    };
    match layout.dtype {
        None => fallback,
        Some(d) => if spec_skips_stats(d@) {
            fallback
        } else {
            match spec_descr_nbytes(d@) {
                None => fallback,
                Some(e) => match layout.shape {
                    None => fallback,
                    Some(sh) => match spec_table_shape(sh@) {
                        None => fallback,
                        Some(rc) => {
                            let want: usize = match spec_min_file_bytes(layout, e, rc.0, rc.1, cap) {
                                Some(w) => w,
                                None => (512 * 1024) as usize,
                            };
                            if want < size {
                                want
                            } else {
                                size
                            }
                        },
                    },
                },
            }
        },
    }
}

/// Bytes to read from a ZIP member so the `.npy` header and the sample prefix are
/// covered (at most the member size; 512 KiB when sampling does not apply).
pub fn zip_member_target_read_len(layout: &ArrayLayoutSummary, uncompressed_size: usize, cap: usize) -> (n: usize)
    ensures
        n <= uncompressed_size,
        n == spec_target_read_len(*layout, uncompressed_size, cap),
{
    let fallback = if uncompressed_size < 512 * 1024 {
        uncompressed_size
    } else {
        512 * 1024
    };
    let descr = match &layout.dtype {
        Some(d) => d,
        None => return fallback,
    };
    if numpy_descr_skips_tabular_stats(descr.as_str()) {
        return fallback;
    }
    let elem = match numpy_descr_element_nbytes(descr.as_str()) {
        Some(e) => e,
        None => return fallback,
    };
    let shape = match &layout.shape {
        Some(s) => s,
        None => return fallback,
    };
    let (rows, cols) = match table_shape(shape.as_slice()) {
        Some(rc) => rc,
        None => return fallback,
    };
    let want = match min_file_bytes_for_column_stats(layout, elem, rows, cols, cap) {
        Some(w) => w,
        None => 512 * 1024,
    };
    if want < uncompressed_size {
        want
    } else {
        uncompressed_size
    }
}

/// Whether a `descr` is little-endian (anything but a leading `>` after whitespace).
pub fn is_little_endian(descr: &str) -> (b: bool)
    ensures
        b == !(trim(descr@).len() > 0 && trim(descr@)[0] == '>'),
{
    let t = trim_chars(chars_of(descr).as_slice());
    !(t.len() > 0 && t[0] == '>')
}

/// Big-endian value of `b[lo..hi]`.
fn read_be(b: &[u8], lo: usize, hi: usize) -> (v: u128)
    requires
        lo <= hi <= b.len(),
        hi - lo <= 8,
    ensures
        v == uint_be(b@.subrange(lo as int, hi as int)),
        v < pow256((hi - lo) as nat),
{
    let mut v: u128 = 0;
    let mut i: usize = lo;
    while i < hi
        invariant
            lo <= i <= hi <= b.len(),
            hi - lo <= 8,
            v == uint_be(b@.subrange(lo as int, i as int)),
            v < pow256((i - lo) as nat),
        decreases hi - i,
    {
        assert(b@.subrange(lo as int, i + 1).drop_last() =~= b@.subrange(lo as int, i as int));
        proof {
            lemma_pow256_mono((i + 1 - lo) as nat, 8);
        }
        v = v * 256 + b[i] as u128;
        i = i + 1;
    }
    v
}

/// Little-endian value of `b[lo..hi]`.
fn read_le(b: &[u8], lo: usize, hi: usize) -> (v: u128)
    requires
        lo <= hi <= b.len(),
        hi - lo <= 8,
    ensures
        v == uint_be(b@.subrange(lo as int, hi as int).reverse()),
        v < pow256((hi - lo) as nat),
{
    let ghost seg = b@.subrange(lo as int, hi as int);
    let mut v: u128 = 0;
    let mut i: usize = hi;
    while i > lo
        invariant
            lo <= i <= hi <= b.len(),
            hi - lo <= 8,
            seg == b@.subrange(lo as int, hi as int),
            v == uint_be(seg.subrange(i - lo, hi - lo).reverse()),
            v < pow256((hi - i) as nat),
        decreases i - lo,
    {
        let ghost part = seg.subrange(i - 1 - lo, hi - lo).reverse();
        assert(part.drop_last() =~= seg.subrange(i - lo, hi - lo).reverse());
        assert(part.last() == b@[i - 1]);
        proof {
            lemma_pow256_mono((hi - i + 1) as nat, 8);
        }
        v = v * 256 + b[i - 1] as u128;
        i = i - 1;
    }
    assert(seg.subrange(0, hi - lo) =~= seg);
    v
}

proof fn lemma_pow256_mono(a: nat, b: nat)
    requires
        a <= b,
    ensures
        pow256(a) <= pow256(b),
        pow256(8) == 0x1_0000_0000_0000_0000,
    decreases b,
{
    reveal_with_fuel(pow256, 9);
    if a < b {
        lemma_pow256_mono(a, (b - 1) as nat);
    }
}

/// Decodes one cell of a numeric dtype from `chunk` (integers by value, floats by
/// their bits); `None` for an unknown dtype or a short chunk.
pub fn decode_cell(descr: &str, chunk: &[u8]) -> (r: Option<CellValue>)
    ensures
        r == spec_decode_cell(descr@, chunk@),
{
    let t = trim_chars(chars_of(descr).as_slice());
    let little = !(t.len() > 0 && t[0] == '>');
    let j = skip_order_marks(t.as_slice(), 0);
    assert(t@.subrange(0, t.len() as int) =~= t@);
    let rest = crate::text::copy_range(t.as_slice(), j, t.len());
    let kind: Option<(usize, bool, bool)> = if rest.len() > 0 && rest[0] == '?' {
        Some((1, false, false))
    } else if (rest.len() >= 2 && rest[0] == 'b' && rest[1] == '1') || (rest.len() == 1 && rest[0] == 'b') {
        Some((1, false, false))
    } else if rest.len() >= 2 && rest[0] == 'i' && rest[1] == '8' {
        Some((8, true, false))
    } else if rest.len() >= 2 && rest[0] == 'u' && rest[1] == '8' {
        Some((8, false, false))
    } else if rest.len() >= 2 && rest[0] == 'i' && rest[1] == '4' {
        Some((4, true, false))
    } else if rest.len() >= 2 && rest[0] == 'u' && rest[1] == '4' {
        Some((4, false, false))
    } else if rest.len() >= 2 && rest[0] == 'i' && rest[1] == '2' {
        Some((2, true, false))
    } else if rest.len() >= 2 && rest[0] == 'u' && rest[1] == '2' {
        Some((2, false, false))
    } else if rest.len() >= 2 && rest[0] == 'i' && rest[1] == '1' {
        Some((1, true, false))
    } else if rest.len() >= 2 && rest[0] == 'u' && rest[1] == '1' {
        Some((1, false, false))
    } else if rest.len() >= 2 && rest[0] == 'f' && rest[1] == '4' {
        Some((4, false, true))
    } else if rest.len() >= 2 && rest[0] == 'f' && rest[1] == '8' {
        Some((8, false, true))
    } else {
        None
    };
    let (n, signed, float) = match kind {
        Some(k) => k,
        None => return None,
    };
    if chunk.len() < n {
        return None;
    }
    let v = if little {
        read_le(chunk, 0, n)
    } else {
        read_be(chunk, 0, n)
    };
    proof {
        lemma_pow256_mono(n as nat, 8);
        reveal_with_fuel(pow256, 9);
    }
    if float {
        if n == 4 {
            return Some(CellValue::Float32(v as u32));
        } else {
            return Some(CellValue::Float64(v as u64));
        }
    }
    let full: u128 = if n == 1 {
        256
    } else if n == 2 {
        0x1_0000
    } else if n == 4 {
        0x1_0000_0000
    } else {
        0x1_0000_0000_0000_0000
    };
    if signed && v >= full / 2 {
        Some(CellValue::Int(v as i128 - full as i128))
    } else {
        Some(CellValue::Int(v as i128))
    }
}

/// Decimal text of an integer cell (`format!("{v}")`).
pub fn int_cell_text(v: i128) -> (s: String)
    requires
        v > i128::MIN,
        -v <= usize::MAX,
        v <= usize::MAX,
    ensures
        s@ == int_text(v as int),
{
    if v < 0 {
        let mut out: Vec<char> = Vec::new();
        out.push('-');
        let d = crate::text::decimal_chars((-v) as usize);
        crate::text::append_chars(&mut out, d.as_slice());
        assert(out@ =~= int_text(v as int));
        crate::text::string_of(out.as_slice())
    } else {
        let d = crate::text::decimal_chars(v as usize);
        crate::text::string_of(d.as_slice())
    }
}

/// Sampled grid of a `.npy` array with its tabular counts.
pub struct NpySample {
    pub common: ColumnarCommonFields,
    /// `cells[r][c]`: the decoded value of row `r`, column `c` (`None` when it could
    /// not be decoded).
    pub cells: Vec<Vec<Option<CellValue>>>,
}

/// Header-only tabular counts: rows and columns from a rank 0–2 shape, or the element
/// count and no columns for higher ranks.
pub fn shape_only_common(layout: &ArrayLayoutSummary) -> (c: ColumnarCommonFields)
    ensures
        c.stats_rows_sampled is None,
        layout.shape is None ==> c.row_count == 0 && c.column_count == 0 && c.encoding is None,
        layout.shape matches Some(sh) ==> {
            &&& (c.encoding matches Some(e) && e@ == StructuredEncoding::NUMPY@)
            &&& match spec_table_shape(sh@) {
                Some((r, k)) => c.row_count == r && c.column_count == k,
                None => c.row_count == wrapped_product(sh@) && c.column_count == 0,
            }
        },
{
    let shape = match &layout.shape {
        Some(s) => s,
        None => {
            return ColumnarCommonFields {
                row_count: 0,
                column_count: 0,
                stats_rows_sampled: None,
                encoding: None,
            };
        },
    };
    let (row_count, column_count) = match table_shape(shape.as_slice()) {
        Some((r, c)) => (r, c),
        None => (shape_num_elements(shape.as_slice()), 0),
    };
    ColumnarCommonFields {
        row_count,
        column_count,
        stats_rows_sampled: None,
        encoding: Some(StructuredEncoding::NUMPY.to_owned()),
    }
}


/// Cell (`r`, `c`) of a sample: the element at its linear index when the element
/// lies inside the sampled `data`.
pub open spec fn spec_cell(descr: Seq<char>, data: Seq<u8>, idx: int, elem: int) -> Option<CellValue> {
    let start = sat(idx * elem);
    let end = sat(start + elem);
    if end <= data.len() {
        spec_decode_cell(descr, data.subrange(start, end))
    } else {
        None
    }
}

/// Linear index of cell (`r`, `c`).
pub open spec fn cell_index(r: int, c: int, rows: int, cols: int, fortran: bool) -> int {
    if fortran {
        r + c * rows
    } else {
        c + r * cols
    }
}

/// The empty tabular counts.
pub open spec fn no_common(c: ColumnarCommonFields) -> bool {
    c.row_count == 0 && c.column_count == 0 && c.stats_rows_sampled is None && c.encoding is None
}

/// Rows can be sampled: a numeric dtype with a known element size, a rank 0–2
/// shape with rows and columns, a data offset within the file, and room after
/// it for at least the first row (which `cap` allows).
pub open spec fn can_sample(file: Seq<u8>, layout: ArrayLayoutSummary, cap: usize) -> bool {
    &&& layout.dtype matches Some(d)
    &&& !spec_skips_stats(d@)
    &&& spec_descr_nbytes(d@) matches Some(elem)
    &&& elem >= 1
    &&& layout.shape matches Some(sh)
    &&& spec_table_shape(sh@) matches Some((rows, cols))
    &&& rows > 0 && cols > 0
    &&& layout.data_offset matches Some(off)
    &&& off <= file.len()
    &&& cap >= 1
    &&& need_bytes(rows as int, cols as int, sh@.len() as int, match layout.fortran_order {
        Some(f) => f,
        None => false,
    }, elem as int, 1) <= file.len() - off
}

/// The common fields that the shape alone gives: no sampled rows; without a
/// shape nothing, else the `numpy` encoding with the table's rows and columns
/// (for a rank above 2, the number of elements and no columns).
pub open spec fn shape_only(c: ColumnarCommonFields, layout: ArrayLayoutSummary) -> bool {
    &&& c.stats_rows_sampled is None
    &&& layout.shape is None ==> c.row_count == 0 && c.column_count == 0 && c.encoding is None
    &&& layout.shape matches Some(sh) ==> {
        &&& (c.encoding matches Some(e) && e@ == StructuredEncoding::NUMPY@)
        &&& match spec_table_shape(sh@) {
            Some((r, k)) => c.row_count == r && c.column_count == k,
            None => c.row_count == wrapped_product(sh@) && c.column_count == 0,
        }
    }
}

/// One sampled row of a rank 0–2 table needs at least one element.
pub proof fn lemma_prefix_one_pos(rows: int, cols: int, rank: int, fortran: bool)
    requires
        rows >= 1,
        cols >= 1,
        0 <= rank <= 2,
    ensures
        spec_prefix_elems(rows, cols, rank, fortran, 1) >= 1,
{
    assert((cols - 1) * rows >= 0) by (nonlinear_arith)
        requires
            cols >= 1,
            rows >= 1,
    ;
    assert(1 * cols == cols);
}

/// More sampled rows never need fewer bytes.
pub proof fn lemma_need_monotone(rows: int, cols: int, rank: int, fortran: bool, elem: int, a: int, b: int)
    requires
        1 <= a <= b,
        rows >= 1,
        cols >= 1,
        elem >= 0,
    ensures
        need_bytes(rows, cols, rank, fortran, elem, a) <= need_bytes(rows, cols, rank, fortran, elem, b),
{
    let pa = spec_prefix_elems(rows, cols, rank, fortran, a);
    let pb = spec_prefix_elems(rows, cols, rank, fortran, b);
    let sa = if a < rows { a } else { rows };
    let sb = if b < rows { b } else { rows };
    assert(sa <= sb);
    if rank == 2 && !fortran {
        assert(sa * cols <= sb * cols) by (nonlinear_arith)
            requires
                sa <= sb,
                cols >= 1,
        ;
    }
    assert(pa <= pb);
    assert(pa * elem <= pb * elem) by (nonlinear_arith)
        requires
            pa <= pb,
            elem >= 0,
    ;
}

/// What the common fields of a sample say of the array: with a dtype whose
/// statistics are skipped, what the shape alone gives; otherwise nothing
/// without a shape or (with an element size) without a data offset, what the
/// shape alone gives without an element size or a rank 0–2 table, or for an
/// empty table or a data offset past the end; else the table's rows and
/// columns with the `numpy` encoding, and the sampled rows the largest number
/// up to `min(rows, cap)` whose payload prefix fits after the data offset,
/// none exactly when not even one row fits.
pub open spec fn npy_common_holds(c: ColumnarCommonFields, file: Seq<u8>, layout: ArrayLayoutSummary, cap: usize) -> bool {
    match layout.dtype {
        None => true,
        Some(d) => if spec_skips_stats(d@) {
            shape_only(c, layout)
        } else {
            match layout.shape {
                None => no_common(c),
                Some(sh) => match (spec_descr_nbytes(d@), spec_table_shape(sh@), layout.data_offset) {
                    (None, _, _) => shape_only(c, layout),
                    (Some(_), None, Some(_)) => shape_only(c, layout),
                    (Some(_), _, None) => no_common(c),
                    (Some(elem), Some((rows, cols)), Some(off)) => if rows == 0 || cols == 0 || off > file.len() {
                        shape_only(c, layout)
                    } else {
                        let hi: int = if rows < cap {
                            rows as int
                        } else {
                            cap as int
                        };
                        let fortran = match layout.fortran_order {
                            Some(f) => f,
                            None => false,
                        };
                        let avail = file.len() - off;
                        let none_fits = hi == 0 || elem == 0 || need_bytes(
                            rows as int,
                            cols as int,
                            sh@.len() as int,
                            fortran,
                            elem as int,
                            1,
                        ) > avail;
                        &&& c.row_count == rows && c.column_count == cols
                        &&& (c.encoding matches Some(e) && e@ == StructuredEncoding::NUMPY@)
                        &&& (c.stats_rows_sampled matches Some(k) ==> forall|j: int|
                            k < j <= hi ==> need_bytes(rows as int, cols as int, sh@.len() as int, fortran, elem as int, j)
                                > avail)
                        &&& (none_fits ==> c.stats_rows_sampled is None)
                        &&& (file.len() < usize::MAX && c.stats_rows_sampled is None ==> none_fits)
                    },
                },
            }
        },
    }
}

/// The sampled rows: the decoded cells of the first `k` rows of a rank 0–2 array
/// whose payload prefix fits in the file. Column statistics over them are computed
/// by the caller. `cap` bounds the sampled rows.
pub fn column_common_from_npy_bytes(file_bytes: &[u8], layout: &ArrayLayoutSummary, cap: usize) -> (s: NpySample)
    ensures
        layout.dtype is None ==> no_common(s.common) && s.cells@.len() == 0,
        s.common.stats_rows_sampled matches Some(k) ==> {
            &&& layout.dtype matches Some(d)
            &&& layout.shape matches Some(sh)
            &&& layout.data_offset matches Some(off)
            &&& spec_table_shape(sh@) matches Some((rows, cols))
            &&& spec_descr_nbytes(d@) matches Some(elem)
            &&& !spec_skips_stats(d@)
            &&& s.common.row_count == rows && s.common.column_count == cols
            &&& s.common.encoding matches Some(e) && e@ == StructuredEncoding::NUMPY@
            &&& 0 < k <= rows && k <= cap && 0 < cols
            &&& off <= file_bytes@.len()
            &&& need_bytes(rows as int, cols as int, sh@.len() as int, match layout.fortran_order {
                Some(f) => f,
                None => false,
            }, elem as int, k as int) <= file_bytes@.len() - off
            &&& s.cells@.len() == k
            &&& forall|r: int| 0 <= r < k ==> (#[trigger] s.cells@[r])@.len() == cols
            &&& forall|r: int, c: int|
                0 <= r < k && 0 <= c < cols ==> (#[trigger] s.cells@[r]@[c]) == spec_cell(
                    d@,
                    file_bytes@.subrange(off as int, off + need_bytes(rows as int, cols as int, sh@.len() as int, match layout.fortran_order {
                        Some(f) => f,
                        None => false,
                    }, elem as int, k as int)),
                    cell_index(r, c, rows as int, cols as int, match layout.fortran_order {
                        Some(f) => f,
                        None => false,
                    }),
                    elem as int,
                )
        },
        s.common.stats_rows_sampled is None ==> s.cells@.len() == 0,
        file_bytes@.len() < usize::MAX && can_sample(file_bytes@, *layout, cap) ==> s.common.stats_rows_sampled is Some,
        npy_common_holds(s.common, file_bytes@, *layout, cap),
{
    let empty = NpySample {
        common: ColumnarCommonFields { row_count: 0, column_count: 0, stats_rows_sampled: None, encoding: None },
        cells: Vec::new(),
    };
    let descr = match &layout.dtype {
        Some(d) => d,
        None => return empty,
    };
    if numpy_descr_skips_tabular_stats(descr.as_str()) {
        return NpySample { common: shape_only_common(layout), cells: Vec::new() };
    }
    let shape = match &layout.shape {
        Some(s) => s,
        None => return empty,
    };
    let elem_size = match numpy_descr_element_nbytes(descr.as_str()) {
        Some(e) => e,
        None => return NpySample { common: shape_only_common(layout), cells: Vec::new() },
    };
    let data_offset = match layout.data_offset {
        Some(o) => o,
        None => return empty,
    };
    let (rows, cols) = match table_shape(shape.as_slice()) {
        Some(rc) => rc,
        None => return NpySample { common: shape_only_common(layout), cells: Vec::new() },
    };
    if rows == 0 || cols == 0 {
        return NpySample { common: shape_only_common(layout), cells: Vec::new() };
    }
    if data_offset > file_bytes.len() {
        return NpySample { common: shape_only_common(layout), cells: Vec::new() };
    }
    let avail = file_bytes.len() - data_offset;
    let rank = shape.len();
    let fortran = match layout.fortran_order {
        Some(f) => f,
        None => false,
    };
    let sample_rows = max_sample_rows_in_prefix(rows, cols, rank, fortran, elem_size, avail, cap);
    proof {
        if can_sample(file_bytes@, *layout, cap) {
            let p1 = spec_prefix_elems(rows as int, cols as int, rank as int, fortran, 1);
            lemma_prefix_one_pos(rows as int, cols as int, rank as int, fortran);
            assert(p1 >= 1);
            assert(p1 * elem_size >= elem_size) by (nonlinear_arith)
                requires
                    p1 >= 1,
                    elem_size >= 0,
            ;
            assert(need_bytes(rows as int, cols as int, rank as int, fortran, elem_size as int, 1) >= elem_size);
        }
    }
    proof {
        if sample_rows >= 1 {
            lemma_need_monotone(rows as int, cols as int, rank as int, fortran, elem_size as int, 1, sample_rows as int);
        }
    }
    if sample_rows == 0 {
        return NpySample { common: shape_only_common(layout), cells: Vec::new() };
    }
    let payload_elems = contiguous_payload_prefix_elems(rows, cols, rank, fortran, sample_rows);
    let prefix_bytes = sat_mul(payload_elems, elem_size);
    if prefix_bytes > avail || payload_elems == usize::MAX {
        proof {
            if file_bytes@.len() < usize::MAX && can_sample(file_bytes@, *layout, cap) {
                assert(payload_elems * elem_size >= payload_elems) by (nonlinear_arith)
                    requires
                        payload_elems >= 0,
                        elem_size >= 1,
                ;
            }
        }
        return NpySample { common: shape_only_common(layout), cells: Vec::new() };
    }
    let data = vstd::slice::slice_subrange(file_bytes, data_offset, data_offset + prefix_bytes);
    proof {
        lemma_cells_in_range(rows as int, cols as int, rank as int, fortran, sample_rows as int, elem_size as int);
    }
    let mut cells: Vec<Vec<Option<CellValue>>> = Vec::new();
    let mut r: usize = 0;
    while r < sample_rows
        invariant
            r <= sample_rows <= rows,
            0 < cols,
            1 <= elem_size,
            rank == 1 || rank == 2 || rank == 0,
            payload_elems as int == spec_prefix_elems(rows as int, cols as int, rank as int, fortran, sample_rows as int),
            forall|a: int, b: int| 0 <= a < sample_rows && 0 <= b < cols ==> cell_index(a, b, rows as int, cols as int, fortran) < payload_elems,
            data@ == file_bytes@.subrange(data_offset as int, data_offset + prefix_bytes),
            cells@.len() == r,
            forall|a: int| 0 <= a < r ==> (#[trigger] cells@[a])@.len() == cols,
            forall|a: int, b: int|
                0 <= a < r && 0 <= b < cols ==> (#[trigger] cells@[a]@[b]) == spec_cell(
                    descr@,
                    data@,
                    cell_index(a, b, rows as int, cols as int, fortran),
                    elem_size as int,
                ),
        decreases sample_rows - r,
    {
        let mut row: Vec<Option<CellValue>> = Vec::new();
        let mut c: usize = 0;
        while c < cols
            invariant
                r < sample_rows <= rows,
                c <= cols,
                1 <= elem_size,
                forall|a: int, b: int| 0 <= a < sample_rows && 0 <= b < cols ==> cell_index(a, b, rows as int, cols as int, fortran) < payload_elems,
                row@.len() == c,
                forall|b: int|
                    0 <= b < c ==> (#[trigger] row@[b]) == spec_cell(
                        descr@,
                        data@,
                        cell_index(r as int, b, rows as int, cols as int, fortran),
                        elem_size as int,
                    ),
            decreases cols - c,
        {
            assert(cell_index(r as int, c as int, rows as int, cols as int, fortran) < payload_elems);
            let idx = elem_offset_2d(r, c, rows, cols, fortran);
            let start = sat_mul(idx, elem_size);
            let end = if start <= usize::MAX - elem_size {
                start + elem_size
            } else {
                usize::MAX
            };
            let cell = if end <= data.len() {
                let chunk = vstd::slice::slice_subrange(data, start, end);
                decode_cell(descr.as_str(), chunk)
            } else {
                None
            };
            row.push(cell);
            c = c + 1;
        }
        cells.push(row);
        r = r + 1;
    }
    NpySample {
        common: ColumnarCommonFields {
            row_count: rows,
            column_count: cols,
            stats_rows_sampled: Some(sample_rows),
            encoding: Some(StructuredEncoding::NUMPY.to_owned()),
        },
        cells,
    }
}

/// Every sampled cell lies inside the payload prefix.
proof fn lemma_cells_in_range(rows: int, cols: int, rank: int, fortran: bool, k: int, elem: int)
    requires
        0 < k <= rows,
        0 < cols,
        rank == 0 || rank == 1 || rank == 2,
        rank < 2 ==> cols == 1,
        spec_prefix_elems(rows, cols, rank, fortran, k) < usize::MAX,
    ensures
        forall|a: int, b: int|
            0 <= a < k && 0 <= b < cols ==> cell_index(a, b, rows, cols, fortran)
                < spec_prefix_elems(rows, cols, rank, fortran, k),
{
    assert forall|a: int, b: int| 0 <= a < k && 0 <= b < cols implies cell_index(a, b, rows, cols, fortran)
        < spec_prefix_elems(rows, cols, rank, fortran, k) by {
        if rank < 2 {
            assert(b == 0);
            assert(b * rows == 0) by (nonlinear_arith)
                requires
                    b == 0,
            ;
            assert(a * cols == a) by (nonlinear_arith)
                requires
                    cols == 1,
            ;
        } else if fortran {
            assert(b * rows <= (cols - 1) * rows) by (nonlinear_arith)
                requires
                    0 <= b <= cols - 1,
                    0 <= rows,
            ;
        } else {
            assert(b + a * cols < k * cols) by (nonlinear_arith)
                requires
                    0 <= a <= k - 1,
                    0 <= b <= cols - 1,
            ;
        }
    }
}

} // verus!
