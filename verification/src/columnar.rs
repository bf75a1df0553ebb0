//! Tabular binary formats: the Feather hint and the column-scaled sample cap.

use vstd::prelude::*;

use crate::csv::{lowercase, to_lowercase};
use crate::npy_sample::sat_mul;
use crate::text::{chars_of, ends_with, has_suffix};

verus! {

/// Columns at which the row-sample cap starts to shrink.
pub const TABULAR_COL_SCALE_NUMERATOR: usize = 4000;

/// A Feather file: its path ends with `.feather` (any case) or its bytes start
/// with `FEA1`.
pub open spec fn spec_feather_hint(path: Seq<char>, bytes: Seq<u8>) -> bool {
    has_suffix(lowercase(path), ".feather"@) || (bytes.len() >= 4 && bytes.subrange(0, 4) == seq![
        0x46u8,
        0x45u8,
        0x41u8,
        0x31u8,
    ])
}

/// Whether a file looks like Feather (Arrow IPC file format version 1).
pub fn feather_hint(path: &str, bytes: &[u8]) -> (b: bool)
    ensures
        b == spec_feather_hint(path@, bytes@),
{
    let lower = to_lowercase(path);
    if ends_with(chars_of(lower.as_str()).as_slice(), chars_of(".feather").as_slice()) {
        return true;
    }
    let r = bytes.len() >= 4 && bytes[0] == 0x46 && bytes[1] == 0x45 && bytes[2] == 0x41 && bytes[3]
        == 0x31;
    if r {
        assert(bytes@.subrange(0, 4) =~= seq![0x46u8, 0x45u8, 0x41u8, 0x31u8]);
    } else if bytes.len() >= 4 {
        assert(bytes@.subrange(0, 4) != seq![0x46u8, 0x45u8, 0x41u8, 0x31u8]) by {
            let p = bytes@.subrange(0, 4);
            if p == seq![0x46u8, 0x45u8, 0x41u8, 0x31u8] {
                assert(p[0] == bytes@[0] && p[1] == bytes@[1] && p[2] == bytes@[2] && p[3] == bytes@[3]);
            }
        }
    }
    r
}

/// Row-sample cap for a table of `column_count` columns: the base cap scaled by
/// `4000 / max(columns, 4000)` (saturating), at least 1.
pub open spec fn spec_effective_tabular_sample_rows(base: usize, column_count: usize) -> int {
    if base <= 1 {
        1
    } else {
        let cc = if column_count < 1 {
            1
        } else {
            column_count as int
        };
        let d = if cc < 4000 {
            4000
        } else {
            cc
        };
        let num = if base * 4000 > usize::MAX {
            usize::MAX as int
        } else {
            base * 4000
        };
        let q = num / d;
        if q < 1 {
            1
        } else {
            q
        }
    }
}

/// The row-sample cap scaled down for wide tables.
pub fn effective_tabular_sample_rows(base: usize, column_count: usize) -> (n: usize)
    ensures
        n == spec_effective_tabular_sample_rows(base, column_count),
{
    if base <= 1 {
        return 1;
    }
    let cc = if column_count < 1 {
        1
    } else {
        column_count
    };
    let d = if cc < TABULAR_COL_SCALE_NUMERATOR {
        TABULAR_COL_SCALE_NUMERATOR
    } else {
        cc
    };
    let num = sat_mul(base, TABULAR_COL_SCALE_NUMERATOR);
    let q = num / d;
    if q < 1 {
        1
    } else {
        q
    }
}

} // verus!
