//! Index arithmetic for rank-3 arrays: which axis to stack planes along,
//! evenly spaced sample indices, and linear indices unravelled in C and
//! column-major order.

use vstd::prelude::*;

use crate::text::{chars_of, first_non_space, skip_leading_space};

verus! {

/// The axis along which a dense buffer is contiguous plane by plane: 0 in C
/// order, 2 in Fortran (column-major) order.
pub open spec fn spec_contiguous_axis(fortran: bool) -> u8 {
    if fortran {
        2
    } else {
        0
    }
}

/// The memory-contiguous stack axis: C order gives 0, Fortran order gives 2.
pub fn contiguous_3d_stack_axis(fortran: bool) -> (r: u8)
    ensures
        r == spec_contiguous_axis(fortran),
{
    if fortran {
        2
    } else {
        0
    }
}

/// The extent of axis `along` (any axis past 1 is axis 2).
pub open spec fn spec_dim_at(d0: usize, d1: usize, d2: usize, along: u8) -> usize {
    if along == 0 {
        d0
    } else if along == 1 {
        d1
    } else {
        d2
    }
}

/// The extent of axis `along`.
pub fn dim_at(d0: usize, d1: usize, d2: usize, along: u8) -> (r: usize)
    ensures
        r == spec_dim_at(d0, d1, d2, along),
{
    if along == 0 {
        d0
    } else if along == 1 {
        d1
    } else {
        d2
    }
}

/// The preferred stack axis: with three equal extents the contiguous axis;
/// otherwise the axis with the smallest extent, ties to the lowest axis.
pub open spec fn spec_stack_axis(d0: usize, d1: usize, d2: usize, fortran: bool) -> u8 {
    if d0 == d1 && d1 == d2 {
        spec_contiguous_axis(fortran)
    } else if d0 <= d1 && d0 <= d2 {
        0
    } else if d1 <= d2 {
        1
    } else {
        2
    }
}

/// The axis to stack planes along: fewest planes first, ties to the lowest
/// axis, the contiguous axis when all three extents are equal.
pub fn stack_axis_preferred(d0: usize, d1: usize, d2: usize, fortran: bool) -> (r: u8)
    ensures
        r == spec_stack_axis(d0, d1, d2, fortran),
{
    if d0 == d1 && d1 == d2 {
        contiguous_3d_stack_axis(fortran)
    } else if d0 <= d1 && d0 <= d2 {
        0
    } else if d1 <= d2 {
        1
    } else {
        2
    }
}

/// The `k`-th of `m` indices spread evenly over `0..n`.
pub open spec fn spread_index(k: int, n: int, m: int) -> int {
    if m == 1 {
        0
    } else {
        (k * (n - 1)) / (m - 1)
    }
}

/// Up to `max` indices spread evenly over `0..n`: all of them when there are
/// at most `max`; otherwise `max` (at least one) indices from first to last.
pub open spec fn spec_evenly_spaced(n: usize, max: usize) -> Seq<int> {
    if n == 0 {
        Seq::empty()
    } else if n <= max {
        Seq::new(n as nat, |k: int| k)
    } else {
        let m: int = if max >= 1 {
            max as int
        } else {
            1
        };
        Seq::new(m as nat, |k: int| spread_index(k, n as int, m))
    }
}

/// Up to `max` indices spread evenly over `0..n`.
pub fn evenly_spaced_indices(n: usize, max: usize) -> (r: Vec<usize>)
    requires
        n <= max || max <= 1 || (max - 1) * (n - 1) <= usize::MAX,
    ensures
        r@.map_values(|x: usize| x as int) == spec_evenly_spaced(n, max),
{
    let mut r: Vec<usize> = Vec::new();
    if n == 0 {
        assert(r@.map_values(|x: usize| x as int) =~= spec_evenly_spaced(n, max));
        return r;
    }
    if n <= max {
        let mut k: usize = 0;
        while k < n
            invariant
                k <= n,
                r@.map_values(|x: usize| x as int) == Seq::new(k as nat, |j: int| j),
            decreases n - k,
        {
            let ghost prev = r@;
            r.push(k);
            assert(r@ == prev.push(k));
            assert(r@.map_values(|x: usize| x as int) =~= prev.map_values(|x: usize| x as int).push(k as int));
            k = k + 1;
            assert(r@.map_values(|x: usize| x as int) =~= Seq::new(k as nat, |j: int| j));
        }
        return r;
    }
    let m: usize = if max >= 1 {
        max
    } else {
        1
    };
    let mut k: usize = 0;
    while k < m
        invariant
            k <= m,
            1 <= m,
            m == 1 || m < n,
            m == 1 || (m - 1) * (n - 1) <= usize::MAX,
            r@.map_values(|x: usize| x as int) == Seq::new(k as nat, |j: int| spread_index(j, n as int, m as int)),
        decreases m - k,
    {
        let v = if m == 1 {
            0
        } else {
            assert(k * (n - 1) <= (m - 1) * (n - 1)) by (nonlinear_arith)
                requires
                    k < m,
                    n >= 1,
            ;
            (k * (n - 1)) / (m - 1)
        };
        let ghost prev = r@;
        r.push(v);
        assert(r@ == prev.push(v));
        assert(r@.map_values(|x: usize| x as int) =~= prev.map_values(|x: usize| x as int).push(v as int));
        assert(v as int == spread_index(k as int, n as int, m as int));
        k = k + 1;
        assert(r@.map_values(|x: usize| x as int) =~= Seq::new(k as nat, |j: int| spread_index(j, n as int, m as int)));
    }
    r
}

/// Coordinates of a linear index in column-major order (first axis fastest).
pub open spec fn spec_unravel_col_major(idx: int, d0: int, d1: int) -> (int, int, int) {
    (idx % d0, (idx / d0) % d1, (idx / d0) / d1)
}

/// Coordinates of a linear index in column-major order.
pub fn unravel_col_maj_3d(idx: usize, d0: usize, d1: usize) -> (r: (usize, usize, usize))
    requires
        d0 > 0,
        d1 > 0,
    ensures
        (r.0 as int, r.1 as int, r.2 as int) == spec_unravel_col_major(idx as int, d0 as int, d1 as int),
{
    let i0 = idx % d0;
    let t = idx / d0;
    let i1 = t % d1;
    let i2 = t / d1;
    (i0, i1, i2)
}

/// Coordinates of a linear index in C order (last axis fastest).
pub open spec fn spec_unravel_c(idx: int, d1: int, d2: int) -> (int, int, int) {
    ((idx / d2) / d1, (idx / d2) % d1, idx % d2)
}

/// Coordinates of a linear index in C order (`NumPy`'s default); the first
/// extent does not enter.
pub fn unravel_c_3d(idx: usize, d0: usize, d1: usize, d2: usize) -> (r: (usize, usize, usize))
    requires
        d1 > 0,
        d2 > 0,
    ensures
        (r.0 as int, r.1 as int, r.2 as int) == spec_unravel_c(idx as int, d1 as int, d2 as int),
{
    let i2 = idx % d2;
    let t = idx / d2;
    let i1 = t % d1;
    let i0 = t / d1;
    (i0, i1, i2)
}

/// The coordinate along axis `along` (any axis past 1 is axis 2).
pub fn plane_index(coord: (usize, usize, usize), along: u8) -> (r: usize)
    ensures
        r == (if along == 0 {
            coord.0
        } else if along == 1 {
            coord.1
        } else {
            coord.2
        }),
{
    if along == 0 {
        coord.0
    } else if along == 1 {
        coord.1
    } else {
        coord.2
    }
}

/// Whether a NumPy dtype description is little-endian (or without byte order):
/// it does not start with `>` once leading whitespace is skipped.
pub fn is_little_endian_descr(descr: &str) -> (r: bool)
    ensures
        r == !(first_non_space(descr@, 0) < descr@.len() && descr@[first_non_space(descr@, 0)] == '>'),
{
    let cs = chars_of(descr);
    let a = skip_leading_space(cs.as_slice(), 0);
    !(a < cs.len() && cs[a] == '>')
}

// ---------------------------------------------------------------------------
// Laws
// ---------------------------------------------------------------------------

/// Unravelling in C order inverts `(i0 * d1 + i1) * d2 + i2`, and each
/// coordinate is within its extent (the first one for indices below
/// `d0 * d1 * d2`).
pub proof fn law_unravel_c_round_trip(idx: int, d0: int, d1: int, d2: int)
    requires
        d1 > 0,
        d2 > 0,
        0 <= idx,
    ensures
        ({
            let (i0, i1, i2) = spec_unravel_c(idx, d1, d2);
            &&& (i0 * d1 + i1) * d2 + i2 == idx
            &&& 0 <= i1 < d1
            &&& 0 <= i2 < d2
            &&& idx < d0 * d1 * d2 ==> 0 <= i0 < d0
        }),
{
    let (i0, i1, i2) = spec_unravel_c(idx, d1, d2);
    let t = idx / d2;
    assert(t * d2 + i2 == idx) by (nonlinear_arith)
        requires
            d2 > 0,
            t == idx / d2,
            i2 == idx % d2,
    ;
    assert(i0 * d1 + i1 == t) by (nonlinear_arith)
        requires
            d1 > 0,
            i0 == t / d1,
            i1 == t % d1,
    ;
    assert(t >= 0) by (nonlinear_arith)
        requires
            d2 > 0,
            idx >= 0,
            t == idx / d2,
    ;
    assert(i0 >= 0) by (nonlinear_arith)
        requires
            d1 > 0,
            t >= 0,
            i0 == t / d1,
    ;
    if idx < d0 * d1 * d2 {
        assert(i0 < d0) by (nonlinear_arith)
            requires
                idx < d0 * d1 * d2,
                (i0 * d1 + i1) * d2 + i2 == idx,
                0 <= i1,
                0 <= i2,
                d1 > 0,
                d2 > 0,
        ;
    }
}

/// Unravelling in column-major order inverts `i0 + d0 * (i1 + d1 * i2)`.
pub proof fn law_unravel_col_major_round_trip(idx: int, d0: int, d1: int)
    requires
        d0 > 0,
        d1 > 0,
        0 <= idx,
    ensures
        ({
            let (i0, i1, i2) = spec_unravel_col_major(idx, d0, d1);
            &&& i0 + d0 * (i1 + d1 * i2) == idx
            &&& 0 <= i0 < d0
            &&& 0 <= i1 < d1
        }),
{
    let (i0, i1, i2) = spec_unravel_col_major(idx, d0, d1);
    let t = idx / d0;
    assert(d0 * t + i0 == idx) by (nonlinear_arith)
        requires
            d0 > 0,
            t == idx / d0,
            i0 == idx % d0,
    ;
    assert(i1 + d1 * i2 == t) by (nonlinear_arith)
        requires
            d1 > 0,
            i1 == t % d1,
            i2 == t / d1,
    ;
}

/// Indices spread over more values than asked for start at 0, end at the last
/// value, stay below `n`, and strictly increase.
pub proof fn law_spread_indices_increase(n: int, m: int, k: int)
    requires
        2 <= m < n,
        0 <= k < m - 1,
    ensures
        spread_index(0, n, m) == 0,
        spread_index(m - 1, n, m) == n - 1,
        spread_index(k, n, m) < spread_index(k + 1, n, m),
        0 <= spread_index(k + 1, n, m) < n,
{
    assert((0 * (n - 1)) / (m - 1) == 0) by (nonlinear_arith)
        requires
            m >= 2,
    ;
    assert(((m - 1) * (n - 1)) / (m - 1) == n - 1) by (nonlinear_arith)
        requires
            m >= 2,
            n >= 1,
    ;
    let a = k * (n - 1);
    let b = (k + 1) * (n - 1);
    let d = m - 1;
    assert(b == a + (n - 1)) by (nonlinear_arith)
        requires
            a == k * (n - 1),
            b == (k + 1) * (n - 1),
    ;
    assert(a / d < b / d) by (nonlinear_arith)
        requires
            d >= 1,
            a >= 0,
            b >= a + d,
    ;
    assert(b <= d * (n - 1)) by (nonlinear_arith)
        requires
            b == (k + 1) * (n - 1),
            k + 1 <= d,
            n >= 1,
    ;
    assert(0 <= b / d <= n - 1) by (nonlinear_arith)
        requires
            d >= 1,
            b >= 0,
            b <= d * (n - 1),
    ;
    assert(a >= 0) by (nonlinear_arith)
        requires
            a == k * (n - 1),
            k >= 0,
            n >= 1,
    ;
}

} // verus!
