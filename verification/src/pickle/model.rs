//! Mathematical model of the read-only pickle opcode walk: operand decoding,
//! the partial stack/memo machine, and the whole scan as a run of steps.

use vstd::prelude::*;
use vstd::utf8::*;

use crate::text::{decimal, has_infix, has_prefix};

verus! {

/// Most opcodes a single scan decodes.
pub const MAX_OPCODES: usize = 500_000;

/// Most distinct global references a scan records.
pub const MAX_GLOBALS: usize = 256;

/// A stack or memo slot: only text takes part in `STACK_GLOBAL`.
pub enum SlotView {
    Str(Seq<char>),
    Mark,
    Opaque,
}

/// Operand stack and memo table.
pub struct StackView {
    pub stack: Seq<SlotView>,
    pub memo: Seq<SlotView>,
}

/// What a scan has gathered so far.
pub struct ScanView {
    pub protocols_seen: Seq<u8>,
    pub frame_count: nat,
    pub frame_bytes_total: u64,
    pub referenced_globals: Seq<Seq<char>>,
    pub saw_builtin_container: bool,
    pub scan_truncated: bool,
    pub scan_error: Option<Seq<char>>,
}

/// Full machine state between two opcodes.
pub struct VmState {
    pub pos: int,
    pub stk: StackView,
    pub scan: ScanView,
}

// ---------------------------------------------------------------------------
// Operand decoding
// ---------------------------------------------------------------------------

/// Little-endian `u32` stored at `d[p..p + 4]`.
pub open spec fn le_u32(d: Seq<u8>, p: int) -> u32 {
    (d[p] as int + d[p + 1] as int * 0x100 + d[p + 2] as int * 0x1_0000 + d[p + 3] as int
        * 0x100_0000) as u32
}

/// Little-endian `u64` stored at `d[p..p + 8]`.
pub open spec fn le_u64(d: Seq<u8>, p: int) -> u64 {
    (d[p] as int + d[p + 1] as int * 0x100 + d[p + 2] as int * 0x1_0000 + d[p + 3] as int
        * 0x100_0000 + d[p + 4] as int * 0x1_0000_0000 + d[p + 5] as int * 0x100_0000_0000
        + d[p + 6] as int * 0x1_0000_0000_0000 + d[p + 7] as int * 0x100_0000_0000_0000) as u64
}

/// One byte at `p`, with the position after it.
pub open spec fn rd_u8(d: Seq<u8>, p: int) -> (Option<u8>, int) {
    if 0 <= p < d.len() {
        (Some(d[p]), p + 1)
    } else {
        (None, p)
    }
}

/// Four-byte little-endian integer at `p`.
pub open spec fn rd_u32(d: Seq<u8>, p: int) -> (Option<u32>, int) {
    if p + 4 > d.len() {
        (None, p)
    } else {
        (Some(le_u32(d, p)), p + 4)
    }
}

/// Eight-byte little-endian integer at `p`.
pub open spec fn rd_u64(d: Seq<u8>, p: int) -> (Option<u64>, int) {
    if p + 8 > d.len() {
        (None, p)
    } else {
        (Some(le_u64(d, p)), p + 8)
    }
}

/// Index of the first newline byte at or after `p`, or the end of data.
pub open spec fn nl_index(d: Seq<u8>, p: int) -> int
    decreases d.len() - p,
{
    if p >= d.len() {
        p
    } else if d[p] == 10 {
        p
    } else {
        nl_index(d, p + 1)
    }
}

/// The text that `d[start..end]` encodes, if it is valid UTF-8.
pub open spec fn utf8_at(d: Seq<u8>, start: int, end: int) -> Option<Seq<char>> {
    let b = d.subrange(start, end);
    if valid_utf8(b) {
        Some(decode_utf8(b))
    } else {
        None
    }
}

/// A newline-terminated UTF-8 operand; the position ends after the newline.
pub open spec fn rd_line(d: Seq<u8>, p: int) -> (Option<Seq<char>>, int) {
    let e = nl_index(d, p);
    if e >= d.len() {
        (None, e)
    } else {
        match utf8_at(d, p, e) {
            Some(t) => (Some(t), e + 1),
            None => (None, e),
        }
    }
}

/// `len` bytes of UTF-8 text at `start`.
pub open spec fn rd_text(d: Seq<u8>, start: int, len: int) -> (Option<Seq<char>>, int) {
    if start + len > d.len() {
        (None, start)
    } else {
        match utf8_at(d, start, start + len) {
            Some(t) => (Some(t), start + len),
            None => (None, start),
        }
    }
}

/// `SHORT_BINUNICODE` operand: one length byte, then the text.
pub open spec fn rd_short_binunicode(d: Seq<u8>, p: int) -> (Option<Seq<char>>, int) {
    match rd_u8(d, p) {
        (Some(l), p1) => rd_text(d, p1, l as int),
        (None, p1) => (None, p1),
    }
}

/// `BINUNICODE` operand: four length bytes, then the text.
pub open spec fn rd_binunicode(d: Seq<u8>, p: int) -> (Option<Seq<char>>, int) {
    match rd_u32(d, p) {
        (Some(l), p1) => rd_text(d, p1, l as int),
        (None, p1) => (None, p1),
    }
}

/// `BINUNICODE8` operand: eight length bytes, then the text.
pub open spec fn rd_binunicode8(d: Seq<u8>, p: int) -> (Option<Seq<char>>, int) {
    match rd_u64(d, p) {
        (Some(l), p1) => rd_text(d, p1, l as int),
        (None, p1) => (None, p1),
    }
}

/// `GLOBAL` / `INST` operands: module line, then name line.
pub open spec fn rd_global_pair(d: Seq<u8>, p: int) -> (Option<(Seq<char>, Seq<char>)>, int) {
    match rd_line(d, p) {
        (Some(m), p1) => match rd_line(d, p1) {
            (Some(n), p2) => (Some((m, n)), p2),
            (None, p2) => (None, p2),
        },
        (None, p1) => (None, p1),
    }
}

/// Skipping `len` payload bytes at `p`: (fits, new position, marked truncated).
pub open spec fn sk_payload(d: Seq<u8>, p: int, len: int) -> (bool, int, bool) {
    if p + len > d.len() {
        (false, p, true)
    } else {
        (true, p + len, false)
    }
}

/// Payload with a one-byte length.
pub open spec fn sk_u8(d: Seq<u8>, p: int) -> (bool, int, bool) {
    match rd_u8(d, p) {
        (Some(l), p1) => sk_payload(d, p1, l as int),
        (None, p1) => (false, p1, false),
    }
}

/// Payload with a four-byte length.
pub open spec fn sk_u32(d: Seq<u8>, p: int) -> (bool, int, bool) {
    match rd_u32(d, p) {
        (Some(l), p1) => sk_payload(d, p1, l as int),
        (None, p1) => (false, p1, false),
    }
}

/// Payload with an eight-byte length.
pub open spec fn sk_u64(d: Seq<u8>, p: int) -> (bool, int, bool) {
    match rd_u64(d, p) {
        (Some(l), p1) => sk_payload(d, p1, l as int),
        (None, p1) => (false, p1, false),
    }
}

// ---------------------------------------------------------------------------
// Global references
// ---------------------------------------------------------------------------

/// ASCII letter.
pub open spec fn is_alpha(c: char) -> bool {
    ('a' <= c && c <= 'z') || ('A' <= c && c <= 'Z')
}

/// ASCII letter, digit or underscore.
pub open spec fn is_ident_char(c: char) -> bool {
    is_alpha(c) || ('0' <= c && c <= '9') || c == '_'
}

/// A Python identifier in ASCII: non-empty, word characters only, not starting with a digit.
pub open spec fn is_ident(s: Seq<char>) -> bool {
    &&& s.len() > 0
    &&& forall|i: int| 0 <= i < s.len() ==> is_ident_char(#[trigger] s[i])
    &&& (is_alpha(s[0]) || s[0] == '_')
}

/// A dotted module path: identifiers separated by single dots
/// (the same as `s.split('.').all(is_ident)` on non-empty `s`).
pub open spec fn is_module(s: Seq<char>) -> bool {
    &&& s.len() > 0
    &&& (is_alpha(s[0]) || s[0] == '_')
    &&& forall|i: int| 0 <= i < s.len() ==> (#[trigger] s[i] == '.' || is_ident_char(s[i]))
    &&& forall|i: int|
        0 <= i < s.len() && #[trigger] s[i] == '.' ==> i + 1 < s.len() && (is_alpha(s[i + 1])
            || s[i + 1] == '_')
}

/// `module.name` is recorded only for a module path and an identifier.
pub open spec fn valid_global(module: Seq<char>, name: Seq<char>) -> bool {
    is_module(module) && is_ident(name)
}

/// The text `module.name`.
pub open spec fn global_ref(module: Seq<char>, name: Seq<char>) -> Seq<char> {
    module + seq!['.'] + name
}

/// Recording `module.name`: skipped when the cap is reached or it was recorded before.
pub open spec fn push_global_seq(out: Seq<Seq<char>>, module: Seq<char>, name: Seq<char>) -> Seq<
    Seq<char>,
> {
    if out.len() >= MAX_GLOBALS {
        out
    } else if out.contains(global_ref(module, name)) {
        out
    } else {
        out.push(global_ref(module, name))
    }
}

// ---------------------------------------------------------------------------
// Stack and memo
// ---------------------------------------------------------------------------

/// Removes the top slot, if any.
pub open spec fn pop_seq(s: Seq<SlotView>) -> Seq<SlotView> {
    if s.len() == 0 {
        s
    } else {
        s.drop_last()
    }
}

/// Pops slots up to and including the topmost mark (everything, if there is none).
pub open spec fn pop_through_mark(s: Seq<SlotView>) -> Seq<SlotView>
    decreases s.len(),
{
    if s.len() == 0 {
        s
    } else if s.last() is Mark {
        s.drop_last()
    } else {
        pop_through_mark(s.drop_last())
    }
}

/// Pushes a copy of the top slot, if any.
pub open spec fn dup_seq(s: Seq<SlotView>) -> Seq<SlotView> {
    if s.len() == 0 {
        s
    } else {
        s.push(s.last())
    }
}

/// `MEMOIZE`: appends the top slot to the memo; the stack keeps it.
pub open spec fn memoize_spec(k: StackView) -> StackView {
    if k.stack.len() == 0 {
        k
    } else {
        StackView { stack: k.stack, memo: k.memo.push(k.stack.last()) }
    }
}

/// `PUT`: stores the top slot at memo index `idx`, growing the memo with opaque slots
/// (an index that no memo length can exceed is ignored).
pub open spec fn memo_put_spec(k: StackView, idx: int) -> StackView {
    if k.stack.len() == 0 || idx >= usize::MAX {
        k
    } else {
        let grown = if k.memo.len() <= idx {
            k.memo + Seq::new((idx + 1 - k.memo.len()) as nat, |i: int| SlotView::Opaque)
        } else {
            k.memo
        };
        StackView { stack: k.stack, memo: grown.update(idx, k.stack.last()) }
    }
}

/// `GET`: pushes memo slot `idx`, or an opaque slot when it is unset.
pub open spec fn memo_get_spec(k: StackView, idx: int) -> StackView {
    let slot = if 0 <= idx < k.memo.len() {
        k.memo[idx]
    } else {
        SlotView::Opaque
    };
    StackView { stack: k.stack.push(slot), memo: k.memo }
}

/// `STACK_GLOBAL`: pops name then module and records `module.name` when both are text.
pub open spec fn stack_global_spec(k: StackView, out: Seq<Seq<char>>) -> (StackView, Seq<
    Seq<char>,
>) {
    if k.stack.len() < 2 {
        (StackView { stack: k.stack.push(SlotView::Opaque), memo: k.memo }, out)
    } else {
        let name = k.stack.last();
        let module = k.stack.drop_last().last();
        let rest = k.stack.drop_last().drop_last();
        let out2 = match (name, module) {
            (SlotView::Str(n), SlotView::Str(m)) => if valid_global(m, n) {
                push_global_seq(out, m, n)
            } else {
                out
            },
            _ => out,
        };
        (StackView { stack: rest.push(SlotView::Opaque), memo: k.memo }, out2)
    }
}

/// Pushes one slot onto the stack.
pub open spec fn push_slot(k: StackView, s: SlotView) -> StackView {
    StackView { stack: k.stack.push(s), memo: k.memo }
}

/// Replaces the stack, keeping the memo.
pub open spec fn with_stack(k: StackView, s: Seq<SlotView>) -> StackView {
    StackView { stack: s, memo: k.memo }
}

// ---------------------------------------------------------------------------
// One opcode
// ---------------------------------------------------------------------------

/// Marks the scan as stopped early with `msg`.
pub open spec fn fail_spec(sc: ScanView, msg: Seq<char>) -> ScanView {
    ScanView { scan_truncated: true, scan_error: Some(msg), ..sc }
}

/// `PROTO` and `FRAME`.
pub open spec fn sd_meta(op: u8, d: Seq<u8>, p: int, sc: ScanView) -> (bool, int, ScanView) {
    if op == 0x80 {
        match rd_u8(d, p) {
            (Some(v), p1) => (true, p1, ScanView { protocols_seen: sc.protocols_seen.push(v), ..sc }),
            (None, p1) => (false, p1, fail_spec(sc, "truncated PROTO operand"@)),
        }
    } else if op == 0x95 {
        match rd_u64(d, p) {
            (Some(n), p1) => (
                true,
                p1,
                ScanView {
                    frame_count: sc.frame_count + 1,
                    frame_bytes_total: ((sc.frame_bytes_total as int + n as int) % 0x1_0000_0000_0000_0000) as u64,
                    ..sc
                },
            ),
            (None, p1) => (false, p1, fail_spec(sc, "truncated FRAME operand"@)),
        }
    } else {
        (true, p, sc)
    }
}

/// `GLOBAL`, `INST` and `STACK_GLOBAL`.
pub open spec fn sd_global(op: u8, d: Seq<u8>, p: int, k: StackView, sc: ScanView) -> (
    bool,
    int,
    StackView,
    ScanView,
) {
    if op == 0x63 || op == 0x69 {
        match rd_global_pair(d, p) {
            (Some((m, n)), p1) => {
                let out = if valid_global(m, n) {
                    push_global_seq(sc.referenced_globals, m, n)
                } else {
                    sc.referenced_globals
                };
                (
                    true,
                    p1,
                    push_slot(k, SlotView::Opaque),
                    ScanView { referenced_globals: out, ..sc },
                )
            },
            (None, p1) => (false, p1, k, fail_spec(sc, "truncated GLOBAL/INST operand"@)),
        }
    } else if op == 0x93 {
        let (k2, out) = stack_global_spec(k, sc.referenced_globals);
        (true, p, k2, ScanView { referenced_globals: out, ..sc })
    } else {
        (true, p, k, sc)
    }
}

/// `SHORT_BINUNICODE`, `BINUNICODE`, `BINUNICODE8`.
pub open spec fn sd_unicode(op: u8, d: Seq<u8>, p: int, k: StackView, sc: ScanView) -> (
    bool,
    int,
    StackView,
    ScanView,
) {
    let (s, p1) = if op == 0x8c {
        rd_short_binunicode(d, p)
    } else if op == 0x58 {
        rd_binunicode(d, p)
    } else if op == 0x8d {
        rd_binunicode8(d, p)
    } else {
        (None, p)
    };
    match s {
        Some(t) => (true, p1, push_slot(k, SlotView::Str(t)), sc),
        None => (
            false,
            p1,
            k,
            fail_spec(
                sc,
                if op == 0x8c {
                    "truncated SHORT_BINUNICODE operand"@
                } else if op == 0x58 {
                    "truncated BINUNICODE operand"@
                } else {
                    "truncated BINUNICODE8 operand"@
                },
            ),
        ),
    }
}

/// Newline-terminated operands of protocols 0 and 1.
pub open spec fn sd_line(d: Seq<u8>, p: int, k: StackView, sc: ScanView) -> (
    bool,
    int,
    StackView,
    ScanView,
) {
    match rd_line(d, p) {
        (Some(_), p1) => (true, p1, push_slot(k, SlotView::Opaque), sc),
        (None, p1) => (false, p1, k, fail_spec(sc, "truncated line operand"@)),
    }
}

/// Message for a length-prefixed operand that does not fit.
pub open spec fn length_msg(op: u8) -> Seq<char> {
    if op == 0x96 || op == 0x8e {
        "truncated BYTEARRAY8/BINBYTES8 operand"@
    } else if op == 0x42 || op == 0x54 {
        "truncated BINBYTES/BINSTRING operand"@
    } else if op == 0x43 || op == 0x55 {
        "truncated short-length operand"@
    } else if op == 0x8a {
        "truncated LONG1 operand"@
    } else {
        "truncated LONG4 operand"@
    }
}

/// Length-prefixed payloads, skipped without reading.
pub open spec fn sd_length(op: u8, d: Seq<u8>, p: int, k: StackView, sc: ScanView) -> (
    bool,
    int,
    StackView,
    ScanView,
) {
    let (ok, p1, tr) = if op == 0x96 || op == 0x8e {
        sk_u64(d, p)
    } else if op == 0x42 || op == 0x54 || op == 0x8b {
        sk_u32(d, p)
    } else if op == 0x43 || op == 0x55 || op == 0x8a {
        sk_u8(d, p)
    } else {
        (false, p, false)
    };
    let sc1 = if tr {
        ScanView { scan_truncated: true, ..sc }
    } else {
        sc
    };
    if !ok {
        (false, p1, k, fail_spec(sc1, length_msg(op)))
    } else {
        (true, p1, push_slot(k, SlotView::Opaque), sc1)
    }
}

/// Width and message of a fixed-width operand.
pub open spec fn fixed_width(op: u8) -> (int, Seq<char>) {
    if op == 0x4a || op == 0x6a {
        (4, "truncated 4-byte operand"@)
    } else if op == 0x4b || op == 0x82 {
        (1, "truncated 1-byte operand"@)
    } else if op == 0x83 {
        (2, "truncated EXT2 operand"@)
    } else if op == 0x84 {
        (4, "truncated EXT4 operand"@)
    } else if op == 0x4d {
        (2, "truncated BININT2 operand"@)
    } else if op == 0x47 {
        (8, "truncated BINFLOAT operand"@)
    } else {
        (0, "truncated operand"@)
    }
}

/// Fixed-width operands, skipped.
pub open spec fn sd_fixed(op: u8, len: int, p: int, k: StackView, sc: ScanView) -> (
    bool,
    int,
    StackView,
    ScanView,
) {
    let (n, msg) = fixed_width(op);
    if p + n > len {
        (false, p, k, fail_spec(sc, msg))
    } else {
        (true, p + n, push_slot(k, SlotView::Opaque), sc)
    }
}

/// `LONG_BINPUT`, `BINPUT`, `BINGET`, `MEMOIZE`.
pub open spec fn sd_memo(op: u8, d: Seq<u8>, p: int, k: StackView, sc: ScanView) -> (
    bool,
    int,
    StackView,
    ScanView,
) {
    if op == 0x72 {
        match rd_u32(d, p) {
            (Some(i), p1) => (true, p1, memo_put_spec(k, i as int), sc),
            (None, p1) => (false, p1, k, fail_spec(sc, "truncated LONG_BINPUT operand"@)),
        }
    } else if op == 0x71 {
        match rd_u8(d, p) {
            (Some(i), p1) => (true, p1, memo_put_spec(k, i as int), sc),
            (None, p1) => (false, p1, k, fail_spec(sc, "truncated BINPUT operand"@)),
        }
    } else if op == 0x68 {
        match rd_u8(d, p) {
            (Some(i), p1) => (true, p1, memo_get_spec(k, i as int), sc),
            (None, p1) => (false, p1, k, fail_spec(sc, "truncated BINGET operand"@)),
        }
    } else if op == 0x94 {
        (true, p, memoize_spec(k), sc)
    } else {
        (true, p, k, sc)
    }
}

/// Opcodes that only reshape the stack.
pub open spec fn sd_stack(op: u8, k: StackView, sc: ScanView) -> (StackView, ScanView) {
    let s = k.stack;
    if op == 0x81 || op == 0x52 || op == 0x62 || op == 0x86 {
        (with_stack(k, pop_seq(pop_seq(s)).push(SlotView::Opaque)), sc)
    } else if op == 0x92 || op == 0x87 {
        (with_stack(k, pop_seq(pop_seq(pop_seq(s))).push(SlotView::Opaque)), sc)
    } else if op == 0x28 {
        (with_stack(k, s.push(SlotView::Mark)), sc)
    } else if op == 0x30 {
        (with_stack(k, pop_seq(s)), sc)
    } else if op == 0x32 {
        (with_stack(k, dup_seq(s)), sc)
    } else if op == 0x31 {
        (with_stack(k, pop_through_mark(s)), sc)
    } else if op == 0x74 || op == 0x6c || op == 0x64 || op == 0x75 || op == 0x65 {
        (with_stack(k, pop_through_mark(s).push(SlotView::Opaque)), sc)
    } else if op == 0x73 || op == 0x61 {
        (with_stack(k, pop_seq(pop_seq(s))), sc)
    } else if op == 0x5d || op == 0x29 || op == 0x7d {
        (with_stack(k, s.push(SlotView::Opaque)), ScanView { saw_builtin_container: true, ..sc })
    } else if op == 0x4e || op == 0x4f || op == 0x97 || op == 0x98 || op == 0x8f || op == 0x90
        || op == 0x91 || op == 0x6f || op == 0x44 || op == 0x51 || op == 0x88 || op == 0x89 {
        (with_stack(k, s.push(SlotView::Opaque)), sc)
    } else if op == 0x85 {
        (with_stack(k, pop_seq(s).push(SlotView::Opaque)), sc)
    } else {
        (k, sc)
    }
}

/// Opcode classes, in the order the dispatcher tests them.
pub open spec fn is_meta_op(op: u8) -> bool {
    op == 0x80 || op == 0x95
}

pub open spec fn is_global_op(op: u8) -> bool {
    op == 0x63 || op == 0x69 || op == 0x93
}

pub open spec fn is_unicode_op(op: u8) -> bool {
    op == 0x8c || op == 0x58 || op == 0x8d
}

pub open spec fn is_line_op(op: u8) -> bool {
    op == 0x56 || op == 0x4c || op == 0x49 || op == 0x46 || op == 0x53 || op == 0x50 || op
        == 0x67 || op == 0x70
}

pub open spec fn is_length_op(op: u8) -> bool {
    op == 0x96 || op == 0x8e || op == 0x42 || op == 0x54 || op == 0x43 || op == 0x55 || op
        == 0x8a || op == 0x8b
}

pub open spec fn is_fixed_op(op: u8) -> bool {
    op == 0x4a || op == 0x6a || op == 0x4b || op == 0x82 || op == 0x83 || op == 0x84 || op
        == 0x4d || op == 0x47
}

pub open spec fn is_memo_op(op: u8) -> bool {
    op == 0x72 || op == 0x71 || op == 0x68 || op == 0x94
}

pub open spec fn is_stack_op(op: u8) -> bool {
    ||| op == 0x81 || op == 0x52 || op == 0x62 || op == 0x86 || op == 0x92 || op == 0x87
    ||| op == 0x28 || op == 0x30 || op == 0x32 || op == 0x31
    ||| op == 0x74 || op == 0x6c || op == 0x64 || op == 0x75 || op == 0x65
    ||| op == 0x73 || op == 0x61 || op == 0x5d || op == 0x29 || op == 0x7d
    ||| op == 0x4e || op == 0x4f || op == 0x97 || op == 0x98 || op == 0x8f || op == 0x90
    ||| op == 0x91 || op == 0x6f || op == 0x44 || op == 0x51 || op == 0x88 || op == 0x89
    ||| op == 0x85
}

/// Lower-case hexadecimal digit.
pub open spec fn hex_digit(v: int) -> char {
    if v < 10 {
        ((v + 48) as u8) as char
    } else {
        ((v + 87) as u8) as char
    }
}

/// A byte as two lower-case hexadecimal digits (`{:02x}`).
pub open spec fn hex2(b: u8) -> Seq<char> {
    seq![hex_digit(b as int / 16), hex_digit(b as int % 16)]
}

/// Message for an opcode the scanner does not know, found at `offset`.
pub open spec fn unsupported_msg(op: u8, offset: nat) -> Seq<char> {
    "unsupported opcode 0x"@ + hex2(op) + " at offset "@ + decimal(offset)
}

/// One opcode `op`, whose operands start at `st.pos`: whether to go on, and the next state.
pub open spec fn sd_opcode(op: u8, d: Seq<u8>, st: VmState) -> (bool, VmState) {
    if op == 0x2e {
        (false, st)
    } else if is_meta_op(op) {
        let (c, p, sc) = sd_meta(op, d, st.pos, st.scan);
        (c, VmState { pos: p, stk: st.stk, scan: sc })
    } else if is_global_op(op) {
        let (c, p, k, sc) = sd_global(op, d, st.pos, st.stk, st.scan);
        (c, VmState { pos: p, stk: k, scan: sc })
    } else if is_unicode_op(op) {
        let (c, p, k, sc) = sd_unicode(op, d, st.pos, st.stk, st.scan);
        (c, VmState { pos: p, stk: k, scan: sc })
    } else if is_line_op(op) {
        let (c, p, k, sc) = sd_line(d, st.pos, st.stk, st.scan);
        (c, VmState { pos: p, stk: k, scan: sc })
    } else if is_length_op(op) {
        let (c, p, k, sc) = sd_length(op, d, st.pos, st.stk, st.scan);
        (c, VmState { pos: p, stk: k, scan: sc })
    } else if is_fixed_op(op) {
        let (c, p, k, sc) = sd_fixed(op, d.len() as int, st.pos, st.stk, st.scan);
        (c, VmState { pos: p, stk: k, scan: sc })
    } else if is_memo_op(op) {
        let (c, p, k, sc) = sd_memo(op, d, st.pos, st.stk, st.scan);
        (c, VmState { pos: p, stk: k, scan: sc })
    } else if is_stack_op(op) {
        let (k, sc) = sd_stack(op, st.stk, st.scan);
        (true, VmState { pos: st.pos, stk: k, scan: sc })
    } else {
        (false, VmState { scan: fail_spec(st.scan, unsupported_msg(op, (st.pos - 1) as nat)), ..st })
    }
}

// ---------------------------------------------------------------------------
// The whole scan
// ---------------------------------------------------------------------------

/// Runs opcodes from state `st`, with `k` opcodes decoded so far, until `STOP`,
/// an error, the end of data or the opcode cap; returns the final state and count.
pub open spec fn run(d: Seq<u8>, st: VmState, k: nat) -> (VmState, nat)
    decreases MAX_OPCODES - k,
{
    if 0 <= st.pos < d.len() && k < MAX_OPCODES {
        let (c, next) = sd_opcode(d[st.pos], d, VmState { pos: st.pos + 1, ..st });
        if c {
            run(d, next, k + 1)
        } else {
            (next, k + 1)
        }
    } else {
        (st, k)
    }
}

/// The state before the first opcode.
pub open spec fn initial_state() -> VmState {
    VmState {
        pos: 0,
        stk: StackView { stack: Seq::empty(), memo: Seq::empty() },
        scan: ScanView {
            protocols_seen: Seq::empty(),
            frame_count: 0,
            frame_bytes_total: 0,
            referenced_globals: Seq::empty(),
            saw_builtin_container: false,
            scan_truncated: false,
            scan_error: None,
        },
    }
}

/// Result of scanning `d`: the run from the start, flagged as truncated when the
/// opcode cap was reached.
pub open spec fn spec_scan(d: Seq<u8>) -> ScanView {
    let (st, k) = run(d, initial_state(), 0);
    if k >= MAX_OPCODES {
        ScanView { scan_truncated: true, ..st.scan }
    } else {
        st.scan
    }
}


// ---------------------------------------------------------------------------
// Header sniff and content labels
// ---------------------------------------------------------------------------

/// Protocol byte of a binary pickle header: `0x80` followed by 2–5.
pub open spec fn spec_header_protocol(b: Seq<u8>) -> Option<u8> {
    if b.len() >= 2 && b[0] == 0x80 && 2 <= b[1] <= 5 {
        Some(b[1])
    } else {
        None
    }
}

/// `"binary"` for a binary header or bytes that are not UTF-8, else `"text"`.
pub open spec fn spec_encoding(b: Seq<u8>) -> Seq<char> {
    if spec_header_protocol(b) is Some || !valid_utf8(b) {
        "binary"@
    } else {
        "text"@
    }
}

/// References into `builtins`, `__builtin__` or `collections`.
pub open spec fn is_builtin_ref(r: Seq<char>) -> bool {
    has_prefix(r, "builtins."@) || has_prefix(r, "__builtin__."@) || has_prefix(
        r,
        "collections."@,
    )
}

/// The references of `s` that are builtin (`builtin == true`) or not, in order.
pub open spec fn select_refs(s: Seq<Seq<char>>, builtin: bool) -> Seq<Seq<char>>
    decreases s.len(),
{
    if s.len() == 0 {
        s
    } else {
        let rest = select_refs(s.drop_last(), builtin);
        if is_builtin_ref(s.last()) == builtin {
            rest.push(s.last())
        } else {
            rest
        }
    }
}

/// Some reference contains `needle`.
pub open spec fn any_infix(all: Seq<Seq<char>>, needle: Seq<char>) -> bool {
    exists|i: int| 0 <= i < all.len() && has_infix(all[i], needle)
}

/// Payload label from the references: `tabular`, `ml_model`, `numeric_array` or
/// `builtin_containers`.
pub open spec fn spec_content_hint(
    globals: Seq<Seq<char>>,
    builtins: Seq<Seq<char>>,
    saw_builtin_container: bool,
) -> Option<Seq<char>> {
    let all = globals + builtins;
    if any_infix(all, "pandas"@) {
        Some("tabular"@)
    } else if any_infix(all, "sklearn"@) || any_infix(all, "torch"@) || any_infix(
        all,
        "xgboost"@,
    ) {
        Some("ml_model"@)
    } else if any_infix(all, "numpy._core"@) || any_infix(all, "numpy.ndarray"@) || any_infix(
        all,
        "numpy.dtype"@,
    ) {
        Some("numeric_array"@)
    } else if all.len() > 0 && (forall|i: int|
        0 <= i < all.len() ==> has_prefix(#[trigger] all[i], "builtins."@)) {
        Some("builtin_containers"@)
    } else if globals.len() == 0 && builtins.len() == 0 && saw_builtin_container {
        Some("builtin_containers"@)
    } else {
        None
    }
}

} // verus!
