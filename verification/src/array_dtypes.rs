//! Element types of chunked array stores mapped to the NumPy descriptions
//! that column sampling reads.

use vstd::prelude::*;

use crate::text::{chars_of, contains, has_infix};

verus! {

/// The NumPy description for a data-type label: matched by the first of
/// `float64`/`<f8`, `float32`/`<f4`, `int64` (not `uint`), `int32`, `int16`,
/// `uint8`, `int8`, `bool` that it contains.
pub open spec fn spec_descr_for_label(s: Seq<char>) -> Option<Seq<char>> {
    if has_infix(s, "float64"@) || has_infix(s, "<f8"@) {
        Some("<f8"@)
    } else if has_infix(s, "float32"@) || has_infix(s, "<f4"@) {
        Some("<f4"@)
    } else if has_infix(s, "int64"@) && !has_infix(s, "uint"@) {
        Some("<i8"@)
    } else if has_infix(s, "int32"@) {
        Some("<i4"@)
    } else if has_infix(s, "int16"@) {
        Some("<i2"@)
    } else if has_infix(s, "uint8"@) {
        Some("<u1"@)
    } else if has_infix(s, "int8"@) {
        Some("<i1"@)
    } else if has_infix(s, "bool"@) {
        Some("?"@)
    } else {
        None
    }
}

/// The NumPy description for a data-type label, where one fits.
pub fn dtype_to_numpy_descr_for_stats(s: &str) -> (r: Option<&'static str>)
    ensures
        match spec_descr_for_label(s@) {
            Some(d) => r matches Some(x) && x@ == d,
            None => r is None,
        },
{
    let t = chars_of(s);
    let t = t.as_slice();
    if contains(t, chars_of("float64").as_slice()) || contains(t, chars_of("<f8").as_slice()) {
        return Some("<f8");
    }
    if contains(t, chars_of("float32").as_slice()) || contains(t, chars_of("<f4").as_slice()) {
        return Some("<f4");
    }
    if contains(t, chars_of("int64").as_slice()) && !contains(t, chars_of("uint").as_slice()) {
        return Some("<i8");
    }
    if contains(t, chars_of("int32").as_slice()) {
        return Some("<i4");
    }
    if contains(t, chars_of("int16").as_slice()) {
        return Some("<i2");
    }
    if contains(t, chars_of("uint8").as_slice()) {
        return Some("<u1");
    }
    if contains(t, chars_of("int8").as_slice()) {
        return Some("<i1");
    }
    if contains(t, chars_of("bool").as_slice()) {
        return Some("?");
    }
    None
}

/// Linear index of an element of a column-major (Fortran order) dense matrix.
pub fn dense_linear_idx(row: usize, col: usize, rows: usize) -> (k: usize)
    requires
        row + col * rows <= usize::MAX,
    ensures
        k == row + col * rows,
{
    assert(col * rows <= usize::MAX) by (nonlinear_arith)
        requires
            row + col * rows <= usize::MAX,
            row >= 0,
    ;
    row + col * rows
}

} // verus!
