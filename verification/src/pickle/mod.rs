//! Python pickle (`.pkl`, `.pickle`): a read-only opcode scan; nothing is unpickled.
//!
//! The scan walks opcodes like CPython's `pickletools.genops` but never rebuilds
//! objects or runs import hooks. Length-prefixed payloads (`BYTEARRAY8`, `BINBYTES8`, …)
//! are skipped by length, so large array dumps stay cheap to scan.
//!
//! A partial stack + memo simulation keeps just enough state to resolve `GLOBAL`, `INST`
//! and `STACK_GLOBAL` references. Protocol 4+ `MEMOIZE` copies the stack top into the
//! memo **without popping**, which real pickles rely on before `STACK_GLOBAL`.

pub mod laws;
pub mod model;

use vstd::prelude::*;
use vstd::slice::slice_subrange;

use crate::text::{
    append_chars, char_vecs, chars_of, contains, decimal_chars, has_infix, has_prefix, starts_with,
    string_of, utf8_str,
};
use crate::results::PickleMetadata;
use self::model::{
    MAX_OPCODES, MAX_GLOBALS, SlotView, StackView, ScanView, VmState, rd_u8, rd_u32, rd_u64, nl_index, utf8_at, rd_line, rd_text, rd_short_binunicode, rd_binunicode, rd_binunicode8, rd_global_pair, sk_u8, sk_u32, sk_u64, is_alpha, is_ident_char, is_ident, is_module, valid_global, global_ref, push_global_seq, pop_seq, pop_through_mark, dup_seq, memoize_spec, memo_put_spec, memo_get_spec, stack_global_spec, push_slot, with_stack, fail_spec, sd_meta, sd_global, sd_unicode, sd_line, sd_length, sd_fixed, sd_memo, sd_stack, hex_digit, unsupported_msg, sd_opcode, run, initial_state, spec_scan, spec_header_protocol, spec_encoding, is_builtin_ref, select_refs, any_infix, spec_content_hint,
};

verus! {

/// Upper bound on the bytes one opcode walk reads.
pub struct ScanLimits {
    pub len: usize,
}

/// What [`scan_pickle_ops`] gathers.
pub struct PickleScan {
    pub protocols_seen: Vec<u8>,
    pub frame_count: usize,
    pub frame_bytes_total: u64,
    pub referenced_globals: Vec<String>,
    /// `EMPTY_DICT` / `EMPTY_LIST` / `EMPTY_TUPLE` were seen (pure-builtin payloads).
    pub saw_builtin_container: bool,
    pub scan_truncated: bool,
    pub scan_error: Option<String>,
}

/// The texts of a vector of strings.
pub open spec fn strings_view(v: Seq<String>) -> Seq<Seq<char>> {
    v.map_values(|s: String| s@)
}

/// The text of an optional string.
pub open spec fn opt_text(o: Option<String>) -> Option<Seq<char>> {
    match o {
        Some(s) => Some(s@),
        None => None,
    }
}

impl View for PickleScan {
    type V = ScanView;

    open spec fn view(&self) -> ScanView {
        ScanView {
            protocols_seen: self.protocols_seen@,
            frame_count: self.frame_count as nat,
            frame_bytes_total: self.frame_bytes_total,
            referenced_globals: strings_view(self.referenced_globals@),
            saw_builtin_container: self.saw_builtin_container,
            scan_truncated: self.scan_truncated,
            scan_error: opt_text(self.scan_error),
        }
    }
}

/// Stack slot of the simulation; only text takes part in `STACK_GLOBAL`.
pub enum StackSlot {
    String(String),
    Mark,
    Opaque,
}

impl View for StackSlot {
    type V = SlotView;

    open spec fn view(&self) -> SlotView {
        match self {
            StackSlot::String(s) => SlotView::Str(s@),
            StackSlot::Mark => SlotView::Mark,
            StackSlot::Opaque => SlotView::Opaque,
        }
    }
}

impl StackSlot {
    /// A copy of this slot.
    pub fn duplicate(&self) -> (r: StackSlot)
        ensures
            r@ == self@,
    {
        match self {
            StackSlot::String(s) => StackSlot::String(s.clone()),
            StackSlot::Mark => StackSlot::Mark,
            StackSlot::Opaque => StackSlot::Opaque,
        }
    }
}

/// The views of a sequence of slots.
pub open spec fn slots_view(s: Seq<StackSlot>) -> Seq<SlotView> {
    s.map_values(|x: StackSlot| x@)
}

proof fn lemma_slots_push(s: Seq<StackSlot>, x: StackSlot)
    ensures
        slots_view(s.push(x)) == slots_view(s).push(x@),
{
    assert(slots_view(s.push(x)) =~= slots_view(s).push(x@));
}

proof fn lemma_slots_drop_last(s: Seq<StackSlot>)
    requires
        s.len() > 0,
    ensures
        slots_view(s.drop_last()) == slots_view(s).drop_last(),
        slots_view(s).last() == s.last()@,
{
    assert(slots_view(s.drop_last()) =~= slots_view(s).drop_last());
}

/// Partial pickle machine state: operand stack and memo table (`BINGET` / `MEMOIZE`).
pub struct PickleStack {
    pub stack: Vec<StackSlot>,
    pub memo: Vec<StackSlot>,
}

impl View for PickleStack {
    type V = StackView;

    open spec fn view(&self) -> StackView {
        StackView { stack: slots_view(self.stack@), memo: slots_view(self.memo@) }
    }
}

impl PickleStack {
    /// Empty stack and memo.
    pub fn new() -> (r: Self)
        ensures
            r@ == initial_state().stk,
    {
        let r = PickleStack { stack: Vec::new(), memo: Vec::new() };
        assert(r@.stack =~= Seq::<SlotView>::empty());
        assert(r@.memo =~= Seq::<SlotView>::empty());
        r
    }

    fn push_slot(&mut self, slot: StackSlot)
        ensures
            final(self)@ == push_slot(old(self)@, slot@),
    {
        proof {
            lemma_slots_push(self.stack@, slot);
        }
        self.stack.push(slot);
    }

    /// Pushes decoded text.
    pub fn push_string(&mut self, s: String)
        ensures
            final(self)@ == push_slot(old(self)@, SlotView::Str(s@)),
    {
        self.push_slot(StackSlot::String(s));
    }

    /// Pushes a value the scan does not track.
    pub fn push_opaque(&mut self)
        ensures
            final(self)@ == push_slot(old(self)@, SlotView::Opaque),
    {
        self.push_slot(StackSlot::Opaque);
    }

    /// Pushes a mark.
    pub fn push_mark(&mut self)
        ensures
            final(self)@ == push_slot(old(self)@, SlotView::Mark),
    {
        self.push_slot(StackSlot::Mark);
    }

    /// Pops the top slot, if any.
    pub fn pop(&mut self) -> (r: Option<StackSlot>)
        ensures
            final(self)@ == with_stack(old(self)@, pop_seq(old(self)@.stack)),
            old(self)@.stack.len() == 0 ==> r is None,
            old(self)@.stack.len() > 0 ==> (r matches Some(x) && x@ == old(self)@.stack.last()),
    {
        if self.stack.len() == 0 {
            return None;
        }
        proof {
            lemma_slots_drop_last(self.stack@);
        }
        self.stack.pop()
    }

    /// Pushes a copy of the top slot, if any.
    pub fn dup_top(&mut self)
        ensures
            final(self)@ == with_stack(old(self)@, dup_seq(old(self)@.stack)),
    {
        if self.stack.len() == 0 {
            return;
        }
        let top = self.stack[self.stack.len() - 1].duplicate();
        proof {
            lemma_slots_drop_last(self.stack@);
        }
        self.push_slot(top);
    }

    /// `POP_MARK`: pops up to and including the topmost mark.
    pub fn pop_mark(&mut self)
        ensures
            final(self)@ == with_stack(old(self)@, pop_through_mark(old(self)@.stack)),
    {
        self.pop_until_mark();
    }

    /// Pops slots until a mark has been popped, or the stack is empty.
    pub fn pop_until_mark(&mut self)
        ensures
            final(self)@ == with_stack(old(self)@, pop_through_mark(old(self)@.stack)),
    {
        let ghost target = pop_through_mark(self@.stack);
        let ghost memo0 = self@.memo;
        let mut done = false;
        while !done
            invariant
                self@.memo == memo0,
                done ==> self@.stack == target,
                !done ==> pop_through_mark(self@.stack) == target,
            decreases self.stack.len() + (if done { 0int } else { 1int }),
        {
            if self.stack.len() == 0 {
                done = true;
            } else {
                proof {
                    lemma_slots_drop_last(self.stack@);
                }
                let slot = self.stack.pop();
                match slot {
                    Some(StackSlot::Mark) => {
                        done = true;
                    },
                    _ => {},
                }
            }
        }
    }

    /// Protocol 4+ `MEMOIZE`: appends the stack top to the memo and does **not** pop it.
    pub fn memoize_top(&mut self)
        ensures
            final(self)@ == memoize_spec(old(self)@),
    {
        if self.stack.len() == 0 {
            return;
        }
        let top = self.stack[self.stack.len() - 1].duplicate();
        proof {
            lemma_slots_drop_last(self.stack@);
            lemma_slots_push(self.memo@, top);
        }
        self.memo.push(top);
    }

    /// `PUT`: stores the stack top at memo index `idx`, growing the memo as needed.
    pub fn memo_put(&mut self, idx: usize)
        ensures
            final(self)@ == memo_put_spec(old(self)@, idx as int),
    {
        if self.stack.len() == 0 || idx == usize::MAX {
            return;
        }
        let top = self.stack[self.stack.len() - 1].duplicate();
        proof {
            lemma_slots_drop_last(self.stack@);
        }
        let ghost m0 = self@.memo;
        let ghost stack0 = self@.stack;
        while self.memo.len() <= idx
            invariant
                idx < usize::MAX,
                self@.stack == stack0,
                m0.len() <= self.memo.len(),
                self.memo.len() <= m0.len() || self.memo.len() <= idx + 1,
                self@.memo == m0 + Seq::new(
                    (self.memo.len() - m0.len()) as nat,
                    |i: int| SlotView::Opaque,
                ),
            decreases idx + 1 - self.memo.len(),
        {
            proof {
                lemma_slots_push(self.memo@, StackSlot::Opaque);
            }
            self.memo.push(StackSlot::Opaque);
            assert(self@.memo =~= m0 + Seq::new(
                (self.memo.len() - m0.len()) as nat,
                |i: int| SlotView::Opaque,
            ));
        }
        let ghost grown = self@.memo;
        self.memo.set(idx, top);
        assert(self@.memo =~= grown.update(idx as int, top@));
        proof {
            if m0.len() <= idx {
                assert(grown =~= m0 + Seq::new(
                    (idx + 1 - m0.len()) as nat,
                    |i: int| SlotView::Opaque,
                ));
            } else {
                assert(grown =~= m0);
            }
        }
    }

    /// `GET`: pushes memo slot `idx`, or an opaque slot when unset.
    pub fn memo_get(&mut self, idx: usize)
        ensures
            final(self)@ == memo_get_spec(old(self)@, idx as int),
    {
        if idx < self.memo.len() {
            let slot = self.memo[idx].duplicate();
            self.push_slot(slot);
        } else {
            self.push_opaque();
        }
    }

    /// `STACK_GLOBAL`: pops `name`, then `module`, and records `module.name` when both are text.
    pub fn stack_global(&mut self, out: &mut Vec<String>)
        ensures
            (final(self)@, strings_view(final(out)@)) == stack_global_spec(
                old(self)@,
                strings_view(old(out)@),
            ),
    {
        if self.stack.len() < 2 {
            self.push_opaque();
            return;
        }
        let ghost k0 = self@;
        let name = self.pop();
        let module = self.pop();
        match (name, module) {
            (Some(StackSlot::String(name)), Some(StackSlot::String(module))) => {
                if is_valid_global_reference(module.as_str(), name.as_str()) {
                    push_global(out, module.as_str(), name.as_str());
                }
            },
            _ => {},
        }
        self.push_opaque();
    }
}

/// Reads one byte.
fn read_u8(data: &[u8], pos: &mut usize, limits: &ScanLimits) -> (r: Option<u8>)
    requires
        limits.len == data.len(),
        *old(pos) <= data.len(),
    ensures
        (r, *final(pos) as int) == rd_u8(data@, *old(pos) as int),
{
    if *pos >= limits.len {
        return None;
    }
    let v = data[*pos];
    *pos = *pos + 1;
    Some(v)
}

/// Reads a four-byte little-endian integer.
fn read_u32_le(data: &[u8], pos: &mut usize, limits: &ScanLimits) -> (r: Option<u32>)
    requires
        limits.len == data.len(),
        *old(pos) <= data.len(),
    ensures
        (r, *final(pos) as int) == rd_u32(data@, *old(pos) as int),
{
    if limits.len - *pos < 4 {
        return None;
    }
    let p = *pos;
    let v: u32 = data[p] as u32 + data[p + 1] as u32 * 0x100 + data[p + 2] as u32 * 0x1_0000
        + data[p + 3] as u32 * 0x100_0000;
    *pos = p + 4;
    Some(v)
}

/// Reads an eight-byte little-endian integer.
fn read_u64_le(data: &[u8], pos: &mut usize, limits: &ScanLimits) -> (r: Option<u64>)
    requires
        limits.len == data.len(),
        *old(pos) <= data.len(),
    ensures
        (r, *final(pos) as int) == rd_u64(data@, *old(pos) as int),
{
    if limits.len - *pos < 8 {
        return None;
    }
    let p = *pos;
    let v: u64 = data[p] as u64 + data[p + 1] as u64 * 0x100 + data[p + 2] as u64 * 0x1_0000
        + data[p + 3] as u64 * 0x100_0000 + data[p + 4] as u64 * 0x1_0000_0000 + data[p + 5] as u64
        * 0x100_0000_0000 + data[p + 6] as u64 * 0x1_0000_0000_0000 + data[p + 7] as u64
        * 0x100_0000_0000_0000;
    *pos = p + 8;
    Some(v)
}

/// Advances past `n` bytes, if that many are left.
fn skip_bytes(pos: &mut usize, n: usize, limits: &ScanLimits) -> (ok: bool)
    requires
        *old(pos) <= limits.len,
    ensures
        ok == (*old(pos) + n <= limits.len),
        *final(pos) == if ok { *old(pos) + n } else { *old(pos) as int },
{
    if n > limits.len - *pos {
        return false;
    }
    *pos = *pos + n;
    true
}

/// UTF-8 text in `data[start..end]`, copied.
fn text_at(data: &[u8], start: usize, end: usize) -> (r: Option<String>)
    requires
        start <= end <= data.len(),
    ensures
        opt_text(r) == utf8_at(data@, start as int, end as int),
{
    let bytes = slice_subrange(data, start, end);
    match utf8_str(bytes) {
        Some(s) => Some(s.to_owned()),
        None => None,
    }
}

/// Reads a newline-terminated UTF-8 operand.
fn read_line(data: &[u8], pos: &mut usize, limits: &ScanLimits) -> (r: Option<String>)
    requires
        limits.len == data.len(),
        *old(pos) <= data.len(),
    ensures
        (opt_text(r), *final(pos) as int) == rd_line(data@, *old(pos) as int),
        *final(pos) <= data.len(),
{
    let start = *pos;
    while *pos < limits.len && data[*pos] != 10u8
        invariant
            limits.len == data.len(),
            start <= *pos <= data.len(),
            nl_index(data@, start as int) == nl_index(data@, *pos as int),
        decreases data.len() - *pos,
    {
        *pos = *pos + 1;
    }
    if *pos >= limits.len {
        return None;
    }
    let line = text_at(data, start, *pos);
    match line {
        Some(l) => {
            *pos = *pos + 1;
            Some(l)
        },
        None => None,
    }
}

/// Reads the module and name lines of `GLOBAL` / `INST`.
fn read_global_pair(data: &[u8], pos: &mut usize, limits: &ScanLimits) -> (r: Option<
    (String, String),
>)
    requires
        limits.len == data.len(),
        *old(pos) <= data.len(),
    ensures
        *final(pos) <= data.len(),
        (match r {
            Some((m, n)) => Some((m@, n@)),
            None => None,
        }, *final(pos) as int) == rd_global_pair(data@, *old(pos) as int),
{
    let module = match read_line(data, pos, limits) {
        Some(m) => m,
        None => return None,
    };
    let name = match read_line(data, pos, limits) {
        Some(n) => n,
        None => return None,
    };
    Some((module, name))
}

/// `len` bytes of UTF-8 text at the current position.
fn read_text(data: &[u8], pos: &mut usize, len: u64, limits: &ScanLimits) -> (r: Option<String>)
    requires
        limits.len == data.len(),
        *old(pos) <= data.len(),
    ensures
        (opt_text(r), *final(pos) as int) == rd_text(data@, *old(pos) as int, len as int),
        *final(pos) <= data.len(),
{
    if len > (limits.len - *pos) as u64 {
        return None;
    }
    let end = *pos + len as usize;
    match text_at(data, *pos, end) {
        Some(s) => {
            *pos = end;
            Some(s)
        },
        None => None,
    }
}

/// `SHORT_BINUNICODE` operand.
fn read_short_binunicode(data: &[u8], pos: &mut usize, limits: &ScanLimits) -> (r: Option<String>)
    requires
        limits.len == data.len(),
        *old(pos) <= data.len(),
    ensures
        (opt_text(r), *final(pos) as int) == rd_short_binunicode(data@, *old(pos) as int),
        *final(pos) <= data.len(),
{
    let len = match read_u8(data, pos, limits) {
        Some(l) => l,
        None => return None,
    };
    read_text(data, pos, len as u64, limits)
}

/// `BINUNICODE` operand.
fn read_binunicode(data: &[u8], pos: &mut usize, limits: &ScanLimits) -> (r: Option<String>)
    requires
        limits.len == data.len(),
        *old(pos) <= data.len(),
    ensures
        (opt_text(r), *final(pos) as int) == rd_binunicode(data@, *old(pos) as int),
        *final(pos) <= data.len(),
{
    let len = match read_u32_le(data, pos, limits) {
        Some(l) => l,
        None => return None,
    };
    read_text(data, pos, len as u64, limits)
}

/// `BINUNICODE8` operand.
fn read_binunicode8(data: &[u8], pos: &mut usize, limits: &ScanLimits) -> (r: Option<String>)
    requires
        limits.len == data.len(),
        *old(pos) <= data.len(),
    ensures
        (opt_text(r), *final(pos) as int) == rd_binunicode8(data@, *old(pos) as int),
        *final(pos) <= data.len(),
{
    let len = match read_u64_le(data, pos, limits) {
        Some(l) => l,
        None => return None,
    };
    read_text(data, pos, len, limits)
}

/// Advances past `len` payload bytes without reading them; marks the scan truncated
/// when they run past the end.
fn skip_payload(
    _data: &[u8],
    pos: &mut usize,
    len: u64,
    limits: &ScanLimits,
    scan: &mut PickleScan,
) -> (ok: bool)
    requires
        limits.len == _data.len(),
        *old(pos) <= _data.len(),
    ensures
        final(scan)@ == (if ok {
            old(scan)@
        } else {
            ScanView { scan_truncated: true, ..old(scan)@ }
        }),
        ok == (*old(pos) + len <= _data.len()),
        *final(pos) == if ok { *old(pos) + len } else { *old(pos) as int },
{
    if len > (limits.len - *pos) as u64 {
        scan.scan_truncated = true;
        return false;
    }
    *pos = *pos + len as usize;
    true
}

/// Payload with a one-byte length.
fn skip_u8_payload(data: &[u8], pos: &mut usize, limits: &ScanLimits, scan: &mut PickleScan) -> (ok:
    bool)
    requires
        limits.len == data.len(),
        *old(pos) <= data.len(),
    ensures
        final(scan)@ == (if sk_u8(data@, *old(pos) as int).2 {
            ScanView { scan_truncated: true, ..old(scan)@ }
        } else {
            old(scan)@
        }),
        (ok, *final(pos) as int) == (sk_u8(data@, *old(pos) as int).0, sk_u8(
            data@,
            *old(pos) as int,
        ).1),
        *final(pos) <= data.len(),
{
    let len = match read_u8(data, pos, limits) {
        Some(l) => l,
        None => return false,
    };
    skip_payload(data, pos, len as u64, limits, scan)
}

/// Payload with a four-byte length.
fn skip_u32_payload(data: &[u8], pos: &mut usize, limits: &ScanLimits, scan: &mut PickleScan) -> (ok:
    bool)
    requires
        limits.len == data.len(),
        *old(pos) <= data.len(),
    ensures
        final(scan)@ == (if sk_u32(data@, *old(pos) as int).2 {
            ScanView { scan_truncated: true, ..old(scan)@ }
        } else {
            old(scan)@
        }),
        (ok, *final(pos) as int) == (sk_u32(data@, *old(pos) as int).0, sk_u32(
            data@,
            *old(pos) as int,
        ).1),
        *final(pos) <= data.len(),
{
    let len = match read_u32_le(data, pos, limits) {
        Some(l) => l,
        None => return false,
    };
    skip_payload(data, pos, len as u64, limits, scan)
}

/// Payload with an eight-byte length.
fn skip_u64_payload(data: &[u8], pos: &mut usize, limits: &ScanLimits, scan: &mut PickleScan) -> (ok:
    bool)
    requires
        limits.len == data.len(),
        *old(pos) <= data.len(),
    ensures
        final(scan)@ == (if sk_u64(data@, *old(pos) as int).2 {
            ScanView { scan_truncated: true, ..old(scan)@ }
        } else {
            old(scan)@
        }),
        (ok, *final(pos) as int) == (sk_u64(data@, *old(pos) as int).0, sk_u64(
            data@,
            *old(pos) as int,
        ).1),
        *final(pos) <= data.len(),
{
    let len = match read_u64_le(data, pos, limits) {
        Some(l) => l,
        None => return false,
    };
    skip_payload(data, pos, len, limits, scan)
}


/// Whether `c` is an ASCII letter, digit or underscore.
fn ident_char(c: char) -> (b: bool)
    ensures
        b == is_ident_char(c),
{
    ('a' <= c && c <= 'z') || ('A' <= c && c <= 'Z') || ('0' <= c && c <= '9') || c == '_'
}

/// Whether `c` may start an identifier (ASCII letter or underscore).
fn ident_start(c: char) -> (b: bool)
    ensures
        b == (is_alpha(c) || c == '_'),
{
    ('a' <= c && c <= 'z') || ('A' <= c && c <= 'Z') || c == '_'
}

/// Whether `s` is an ASCII identifier.
fn is_ident_chars(s: &[char]) -> (b: bool)
    ensures
        b == is_ident(s@),
{
    if s.len() == 0 || !ident_start(s[0]) {
        return false;
    }
    let mut i: usize = 0;
    while i < s.len()
        invariant
            i <= s.len(),
            forall|j: int| 0 <= j < i ==> is_ident_char(#[trigger] s@[j]),
        decreases s.len() - i,
    {
        if !ident_char(s[i]) {
            return false;
        }
        i = i + 1;
    }
    true
}

/// Whether `s` is a dot-separated path of identifiers.
fn is_module_chars(s: &[char]) -> (b: bool)
    ensures
        b == is_module(s@),
{
    if s.len() == 0 || !ident_start(s[0]) {
        return false;
    }
    let mut i: usize = 0;
    while i < s.len()
        invariant
            i <= s.len(),
            forall|j: int| 0 <= j < i ==> (#[trigger] s@[j] == '.' || is_ident_char(s@[j])),
            forall|j: int|
                0 <= j < i && #[trigger] s@[j] == '.' ==> j + 1 < s.len() && (is_alpha(s@[j + 1])
                    || s@[j + 1] == '_'),
        decreases s.len() - i,
    {
        if s[i] == '.' {
            if i + 1 >= s.len() || !ident_start(s[i + 1]) {
                return false;
            }
        } else if !ident_char(s[i]) {
            return false;
        }
        i = i + 1;
    }
    true
}

/// Rejects dtype fragments and other pairs that are not imports (e.g. `"|"` + `"Index"`).
pub fn is_valid_global_reference(module: &str, name: &str) -> (b: bool)
    ensures
        b == valid_global(module@, name@),
{
    let m = chars_of(module);
    let n = chars_of(name);
    is_module_chars(m.as_slice()) && is_ident_chars(n.as_slice())
}

/// Records `module.name` unless the cap is reached or it is already recorded.
fn push_global(out: &mut Vec<String>, module: &str, name: &str)
    ensures
        strings_view(final(out)@) == push_global_seq(strings_view(old(out)@), module@, name@),
{
    if out.len() >= MAX_GLOBALS {
        return;
    }
    let mut text = chars_of(module);
    text.push('.');
    let n = chars_of(name);
    append_chars(&mut text, n.as_slice());
    let reference = string_of(text.as_slice());
    assert(reference@ =~= global_ref(module@, name@));
    let ghost outs = strings_view(out@);
    let mut i: usize = 0;
    while i < out.len()
        invariant
            i <= out.len(),
            outs == strings_view(out@),
            reference@ == global_ref(module@, name@),
            forall|j: int| 0 <= j < i ==> outs[j] != reference@,
        decreases out.len() - i,
    {
        if out[i] == reference {
            assert(outs[i as int] == reference@);
            assert(outs.contains(reference@));
            return;
        }
        i = i + 1;
    }
    assert(!outs.contains(reference@));
    let ghost before = out@;
    out.push(reference);
    assert(strings_view(out@) =~= outs.push(global_ref(module@, name@)));
}

/// Marks the scan as stopped early with `message`; always answers `false`.
fn fail_scan(scan: &mut PickleScan, message: &str) -> (r: bool)
    ensures
        r == false,
        final(scan)@ == fail_spec(old(scan)@, message@),
{
    scan.scan_truncated = true;
    scan.scan_error = Some(message.to_owned());
    false
}

/// `PROTO` (0x80) and `FRAME` (0x95): protocol versions and frame size tallies.
fn dispatch_meta_opcode(
    op: u8,
    data: &[u8],
    pos: &mut usize,
    limits: &ScanLimits,
    scan: &mut PickleScan,
) -> (r: bool)
    requires
        limits.len == data.len(),
        *old(pos) <= data.len(),
        old(scan).frame_count < usize::MAX,
    ensures
        (r, *final(pos) as int, final(scan)@) == sd_meta(op, data@, *old(pos) as int, old(scan)@),
        *final(pos) <= data.len(),
{
    if op == 0x80 {
        match read_u8(data, pos, limits) {
            Some(p) => {
                scan.protocols_seen.push(p);
                true
            },
            None => fail_scan(scan, "truncated PROTO operand"),
        }
    } else if op == 0x95 {
        match read_u64_le(data, pos, limits) {
            Some(n) => {
                scan.frame_count = scan.frame_count + 1;
                scan.frame_bytes_total = scan.frame_bytes_total.wrapping_add(n);
                true
            },
            None => fail_scan(scan, "truncated FRAME operand"),
        }
    } else {
        true
    }
}

/// `GLOBAL` / `INST` / `STACK_GLOBAL`: import references in the stream.
fn dispatch_global_opcode(
    op: u8,
    data: &[u8],
    pos: &mut usize,
    limits: &ScanLimits,
    stack: &mut PickleStack,
    scan: &mut PickleScan,
) -> (r: bool)
    requires
        limits.len == data.len(),
        *old(pos) <= data.len(),
    ensures
        (r, *final(pos) as int, final(stack)@, final(scan)@) == sd_global(
            op,
            data@,
            *old(pos) as int,
            old(stack)@,
            old(scan)@,
        ),
        *final(pos) <= data.len(),
{
    if op == 0x63 || op == 0x69 {
        match read_global_pair(data, pos, limits) {
            Some((module, name)) => {
                if is_valid_global_reference(module.as_str(), name.as_str()) {
                    push_global(&mut scan.referenced_globals, module.as_str(), name.as_str());
                }
                stack.push_opaque();
                true
            },
            None => fail_scan(scan, "truncated GLOBAL/INST operand"),
        }
    } else if op == 0x93 {
        stack.stack_global(&mut scan.referenced_globals);
        true
    } else {
        true
    }
}

/// `SHORT_BINUNICODE`, `BINUNICODE`, `BINUNICODE8`: pushes the text.
fn dispatch_unicode_opcode(
    op: u8,
    data: &[u8],
    pos: &mut usize,
    limits: &ScanLimits,
    stack: &mut PickleStack,
    scan: &mut PickleScan,
) -> (r: bool)
    requires
        limits.len == data.len(),
        *old(pos) <= data.len(),
    ensures
        (r, *final(pos) as int, final(stack)@, final(scan)@) == sd_unicode(
            op,
            data@,
            *old(pos) as int,
            old(stack)@,
            old(scan)@,
        ),
        *final(pos) <= data.len(),
{
    let s = if op == 0x8c {
        read_short_binunicode(data, pos, limits)
    } else if op == 0x58 {
        read_binunicode(data, pos, limits)
    } else if op == 0x8d {
        read_binunicode8(data, pos, limits)
    } else {
        None
    };
    match s {
        Some(s) => {
            stack.push_string(s);
            true
        },
        None => fail_scan(
            scan,
            if op == 0x8c {
                "truncated SHORT_BINUNICODE operand"
            } else if op == 0x58 {
                "truncated BINUNICODE operand"
            } else {
                "truncated BINUNICODE8 operand"
            },
        ),
    }
}

/// Protocol 0/1 operands that end at a newline (`INT`, `FLOAT`, `PUT`, …).
fn dispatch_line_operand(
    data: &[u8],
    pos: &mut usize,
    limits: &ScanLimits,
    stack: &mut PickleStack,
    scan: &mut PickleScan,
) -> (r: bool)
    requires
        limits.len == data.len(),
        *old(pos) <= data.len(),
    ensures
        (r, *final(pos) as int, final(stack)@, final(scan)@) == sd_line(
            data@,
            *old(pos) as int,
            old(stack)@,
            old(scan)@,
        ),
        *final(pos) <= data.len(),
{
    if read_line(data, pos, limits).is_none() {
        return fail_scan(scan, "truncated line operand");
    }
    stack.push_opaque();
    true
}

/// Length-prefixed blobs: the payload is skipped, not read.
fn dispatch_length_payload(
    op: u8,
    data: &[u8],
    pos: &mut usize,
    limits: &ScanLimits,
    stack: &mut PickleStack,
    scan: &mut PickleScan,
) -> (r: bool)
    requires
        limits.len == data.len(),
        *old(pos) <= data.len(),
    ensures
        (r, *final(pos) as int, final(stack)@, final(scan)@) == sd_length(
            op,
            data@,
            *old(pos) as int,
            old(stack)@,
            old(scan)@,
        ),
        *final(pos) <= data.len(),
{
    let ok = if op == 0x96 || op == 0x8e {
        skip_u64_payload(data, pos, limits, scan)
    } else if op == 0x42 || op == 0x54 || op == 0x8b {
        skip_u32_payload(data, pos, limits, scan)
    } else if op == 0x43 || op == 0x55 || op == 0x8a {
        skip_u8_payload(data, pos, limits, scan)
    } else {
        false
    };
    if !ok {
        return fail_scan(
            scan,
            if op == 0x96 || op == 0x8e {
                "truncated BYTEARRAY8/BINBYTES8 operand"
            } else if op == 0x42 || op == 0x54 {
                "truncated BINBYTES/BINSTRING operand"
            } else if op == 0x43 || op == 0x55 {
                "truncated short-length operand"
            } else if op == 0x8a {
                "truncated LONG1 operand"
            } else {
                "truncated LONG4 operand"
            },
        );
    }
    stack.push_opaque();
    true
}

/// Fixed-width numeric and extension operands (`BININT`, `BINFLOAT`, `EXT1`, …).
fn dispatch_fixed_operand(
    op: u8,
    pos: &mut usize,
    limits: &ScanLimits,
    stack: &mut PickleStack,
    scan: &mut PickleScan,
) -> (r: bool)
    requires
        *old(pos) <= limits.len,
    ensures
        (r, *final(pos) as int, final(stack)@, final(scan)@) == sd_fixed(
            op,
            limits.len as int,
            *old(pos) as int,
            old(stack)@,
            old(scan)@,
        ),
        *final(pos) <= limits.len,
{
    let (n, err): (usize, &str) = if op == 0x4a || op == 0x6a {
        (4, "truncated 4-byte operand")
    } else if op == 0x4b || op == 0x82 {
        (1, "truncated 1-byte operand")
    } else if op == 0x83 {
        (2, "truncated EXT2 operand")
    } else if op == 0x84 {
        (4, "truncated EXT4 operand")
    } else if op == 0x4d {
        (2, "truncated BININT2 operand")
    } else if op == 0x47 {
        (8, "truncated BINFLOAT operand")
    } else {
        (0, "truncated operand")
    };
    if !skip_bytes(pos, n, limits) {
        return fail_scan(scan, err);
    }
    stack.push_opaque();
    true
}

/// Memo table: `MEMOIZE`, `BINPUT`, `LONG_BINPUT`, `BINGET`.
fn dispatch_memo_opcode(
    op: u8,
    data: &[u8],
    pos: &mut usize,
    limits: &ScanLimits,
    stack: &mut PickleStack,
    scan: &mut PickleScan,
) -> (r: bool)
    requires
        limits.len == data.len(),
        *old(pos) <= data.len(),
    ensures
        (r, *final(pos) as int, final(stack)@, final(scan)@) == sd_memo(
            op,
            data@,
            *old(pos) as int,
            old(stack)@,
            old(scan)@,
        ),
        *final(pos) <= data.len(),
{
    if op == 0x72 {
        match read_u32_le(data, pos, limits) {
            Some(idx) => {
                stack.memo_put(idx as usize);
                true
            },
            None => fail_scan(scan, "truncated LONG_BINPUT operand"),
        }
    } else if op == 0x71 {
        match read_u8(data, pos, limits) {
            Some(idx) => {
                stack.memo_put(idx as usize);
                true
            },
            None => fail_scan(scan, "truncated BINPUT operand"),
        }
    } else if op == 0x68 {
        match read_u8(data, pos, limits) {
            Some(idx) => {
                stack.memo_get(idx as usize);
                true
            },
            None => fail_scan(scan, "truncated BINGET operand"),
        }
    } else if op == 0x94 {
        stack.memoize_top();
        true
    } else {
        true
    }
}

/// Stack-shaping opcodes (`REDUCE`, `NEWOBJ`, `BUILD`, `TUPLE`, empty containers, …).
fn dispatch_stack_opcode(op: u8, stack: &mut PickleStack, scan: &mut PickleScan) -> (r: bool)
    ensures
        r,
        (final(stack)@, final(scan)@) == sd_stack(op, old(stack)@, old(scan)@),
{
    if op == 0x81 || op == 0x52 || op == 0x62 || op == 0x86 {
        stack.pop();
        stack.pop();
        stack.push_opaque();
    } else if op == 0x92 || op == 0x87 {
        stack.pop();
        stack.pop();
        stack.pop();
        stack.push_opaque();
    } else if op == 0x28 {
        stack.push_mark();
    } else if op == 0x30 {
        stack.pop();
    } else if op == 0x32 {
        stack.dup_top();
    } else if op == 0x31 {
        stack.pop_mark();
    } else if op == 0x74 || op == 0x6c || op == 0x64 || op == 0x75 || op == 0x65 {
        stack.pop_until_mark();
        stack.push_opaque();
    } else if op == 0x73 || op == 0x61 {
        stack.pop();
        stack.pop();
    } else if op == 0x5d || op == 0x29 || op == 0x7d {
        scan.saw_builtin_container = true;
        stack.push_opaque();
    } else if op == 0x4e || op == 0x4f || op == 0x97 || op == 0x98 || op == 0x8f || op == 0x90
        || op == 0x91 || op == 0x6f || op == 0x44 || op == 0x51 || op == 0x88 || op == 0x89 {
        stack.push_opaque();
    } else if op == 0x85 {
        stack.pop();
        stack.push_opaque();
    }
    true
}


/// Lower-case hexadecimal digit for a value below sixteen.
fn hex_char(v: u8) -> (c: char)
    requires
        v < 16,
    ensures
        c == hex_digit(v as int),
{
    if v < 10 {
        (v + 48) as char
    } else {
        (v + 87) as char
    }
}

/// `"unsupported opcode 0x{op:02x} at offset {offset}"`.
fn unsupported_opcode_message(op: u8, offset: usize) -> (m: String)
    ensures
        m@ == unsupported_msg(op, offset as nat),
{
    let mut v = chars_of("unsupported opcode 0x");
    v.push(hex_char(op / 16));
    v.push(hex_char(op % 16));
    let mid = chars_of(" at offset ");
    append_chars(&mut v, mid.as_slice());
    let dec = decimal_chars(offset);
    append_chars(&mut v, dec.as_slice());
    let m = string_of(v.as_slice());
    assert(m@ =~= unsupported_msg(op, offset as nat));
    m
}

/// The machine state made of a position, a stack and the gathered results.
pub open spec fn vm_of(pos: usize, stack: PickleStack, scan: PickleScan) -> VmState {
    VmState { pos: pos as int, stk: stack@, scan: scan@ }
}

/// Routes one opcode to its handler; `false` on `STOP` or when the scan must stop.
fn dispatch_opcode(
    op: u8,
    data: &[u8],
    pos: &mut usize,
    limits: &ScanLimits,
    stack: &mut PickleStack,
    scan: &mut PickleScan,
) -> (r: bool)
    requires
        limits.len == data.len(),
        1 <= *old(pos) <= data.len(),
        old(scan).frame_count < usize::MAX,
    ensures
        (r, vm_of(*final(pos), *final(stack), *final(scan))) == sd_opcode(
            op,
            data@,
            vm_of(*old(pos), *old(stack), *old(scan)),
        ),
        *final(pos) <= data.len(),
        final(scan).frame_count <= old(scan).frame_count + 1,
{
    if op == 0x2e {
        false
    } else if op == 0x80 || op == 0x95 {
        dispatch_meta_opcode(op, data, pos, limits, scan)
    } else if op == 0x63 || op == 0x69 || op == 0x93 {
        dispatch_global_opcode(op, data, pos, limits, stack, scan)
    } else if op == 0x8c || op == 0x58 || op == 0x8d {
        dispatch_unicode_opcode(op, data, pos, limits, stack, scan)
    } else if op == 0x56 || op == 0x4c || op == 0x49 || op == 0x46 || op == 0x53 || op == 0x50
        || op == 0x67 || op == 0x70 {
        dispatch_line_operand(data, pos, limits, stack, scan)
    } else if op == 0x96 || op == 0x8e || op == 0x42 || op == 0x54 || op == 0x43 || op == 0x55
        || op == 0x8a || op == 0x8b {
        dispatch_length_payload(op, data, pos, limits, stack, scan)
    } else if op == 0x4a || op == 0x6a || op == 0x4b || op == 0x82 || op == 0x83 || op == 0x84
        || op == 0x4d || op == 0x47 {
        dispatch_fixed_operand(op, pos, limits, stack, scan)
    } else if op == 0x72 || op == 0x71 || op == 0x68 || op == 0x94 {
        dispatch_memo_opcode(op, data, pos, limits, stack, scan)
    } else if op == 0x81 || op == 0x52 || op == 0x62 || op == 0x86 || op == 0x92 || op == 0x87
        || op == 0x28 || op == 0x30 || op == 0x32 || op == 0x31 || op == 0x74 || op == 0x6c || op
        == 0x64 || op == 0x75 || op == 0x65 || op == 0x73 || op == 0x61 || op == 0x5d || op == 0x29
        || op == 0x7d || op == 0x4e || op == 0x4f || op == 0x97 || op == 0x98 || op == 0x8f || op
        == 0x90 || op == 0x91 || op == 0x6f || op == 0x44 || op == 0x51 || op == 0x88 || op == 0x89
        || op == 0x85 {
        dispatch_stack_opcode(op, stack, scan)
    } else {
        let message = unsupported_opcode_message(op, *pos - 1);
        scan.scan_truncated = true;
        scan.scan_error = Some(message);
        false
    }
}

/// Walks opcodes from the start of `data`, gathering globals and frame tallies until
/// `STOP`, an error, the end of data, or [`MAX_OPCODES`] opcodes.
pub fn scan_pickle_ops(data: &[u8]) -> (result: PickleScan)
    ensures
        result@ == spec_scan(data@),
{
    let limits = ScanLimits { len: data.len() };
    let mut scan = PickleScan {
        protocols_seen: Vec::new(),
        frame_count: 0,
        frame_bytes_total: 0,
        referenced_globals: Vec::new(),
        saw_builtin_container: false,
        scan_truncated: false,
        scan_error: None,
    };
    let mut pos: usize = 0;
    let mut stack = PickleStack::new();
    let mut op_count: usize = 0;
    assert(scan@.protocols_seen =~= Seq::<u8>::empty());
    assert(scan@.referenced_globals =~= Seq::<Seq<char>>::empty());
    assert(vm_of(pos, stack, scan) == initial_state());
    let ghost total = run(data@, initial_state(), 0);
    let mut go = true;
    while go && pos < limits.len && op_count < MAX_OPCODES
        invariant
            limits.len == data.len(),
            pos <= data.len(),
            op_count <= MAX_OPCODES,
            scan.frame_count <= op_count,
            go ==> run(data@, vm_of(pos, stack, scan), op_count as nat) == total,
            !go ==> (vm_of(pos, stack, scan), op_count as nat) == total,
        decreases MAX_OPCODES - op_count,
    {
        let ghost before = vm_of(pos, stack, scan);
        op_count = op_count + 1;
        let op = data[pos];
        pos = pos + 1;
        assert(vm_of(pos, stack, scan) == VmState { pos: before.pos + 1, ..before });
        if !dispatch_opcode(op, data, &mut pos, &limits, &mut stack, &mut scan) {
            go = false;
        }
    }
    if op_count >= MAX_OPCODES {
        scan.scan_truncated = true;
    }
    scan
}

/// Protocol of a binary pickle header (`\x80` then 2–5).
pub fn header_protocol(bytes: &[u8]) -> (r: Option<u8>)
    ensures
        r == spec_header_protocol(bytes@),
{
    if bytes.len() >= 2 && bytes[0] == 0x80 && 2 <= bytes[1] && bytes[1] <= 5 {
        Some(bytes[1])
    } else {
        None
    }
}

/// Protocols 0/1 are printable text; protocol 2+ starts with a binary header.
pub fn pickle_encoding(bytes: &[u8]) -> (r: &'static str)
    ensures
        r@ == spec_encoding(bytes@),
{
    if header_protocol(bytes).is_some() || utf8_str(bytes).is_none() {
        "binary"
    } else {
        "text"
    }
}

/// References into `builtins`, `__builtin__` or `collections`.
pub fn is_builtin_type(reference: &str) -> (b: bool)
    ensures
        b == is_builtin_ref(reference@),
{
    let r = chars_of(reference);
    let p1 = chars_of("builtins.");
    let p2 = chars_of("__builtin__.");
    let p3 = chars_of("collections.");
    starts_with(r.as_slice(), p1.as_slice()) || starts_with(r.as_slice(), p2.as_slice())
        || starts_with(r.as_slice(), p3.as_slice())
}

/// The characters of each string.
fn all_chars(a: &[String], b: &[String]) -> (all: Vec<Vec<char>>)
    ensures
        char_vecs(all@) == strings_view(a@) + strings_view(b@),
{
    let mut all: Vec<Vec<char>> = Vec::new();
    let mut i: usize = 0;
    while i < a.len()
        invariant
            i <= a.len(),
            char_vecs(all@) == strings_view(a@.subrange(0, i as int)),
        decreases a.len() - i,
    {
        let ghost before = char_vecs(all@);
        let c = chars_of(a[i].as_str());
        assert(c@ == a@[i as int]@);
        all.push(c);
        assert(char_vecs(all@) =~= before.push(c@));
        assert(strings_view(a@.subrange(0, i + 1)) =~= strings_view(a@.subrange(0, i as int)).push(
            a@[i as int]@,
        ));
        i = i + 1;
    }
    assert(a@.subrange(0, a.len() as int) =~= a@);
    let mut j: usize = 0;
    while j < b.len()
        invariant
            j <= b.len(),
            char_vecs(all@) == strings_view(a@) + strings_view(
                b@.subrange(0, j as int),
            ),
        decreases b.len() - j,
    {
        let ghost before = char_vecs(all@);
        let c = chars_of(b[j].as_str());
        assert(c@ == b@[j as int]@);
        all.push(c);
        assert(char_vecs(all@) =~= before.push(c@));
        assert(strings_view(b@.subrange(0, j + 1)) =~= strings_view(b@.subrange(0, j as int)).push(
            b@[j as int]@,
        ));
        assert(char_vecs(all@) =~= strings_view(a@) + strings_view(b@.subrange(0, j + 1)));
        j = j + 1;
    }
    assert(b@.subrange(0, b.len() as int) =~= b@);
    all
}

/// Whether some item contains `needle`.
fn any_contains(all: &Vec<Vec<char>>, needle: &str) -> (b: bool)
    ensures
        b == any_infix(char_vecs(all@), needle@),
{
    let n = chars_of(needle);
    let ghost views = char_vecs(all@);
    let mut i: usize = 0;
    while i < all.len()
        invariant
            i <= all.len(),
            views == char_vecs(all@),
            n@ == needle@,
            forall|j: int| 0 <= j < i ==> !has_infix(#[trigger] views[j], needle@),
        decreases all.len() - i,
    {
        if contains(all[i].as_slice(), n.as_slice()) {
            assert(has_infix(views[i as int], needle@));
            return true;
        }
        i = i + 1;
    }
    false
}

/// Whether every item starts with `builtins.` (false for no items).
fn all_builtins(all: &Vec<Vec<char>>) -> (b: bool)
    ensures
        b == (all@.len() > 0 && forall|i: int|
            0 <= i < all@.len() ==> has_prefix(
                #[trigger] char_vecs(all@)[i],
                "builtins."@,
            )),
{
    if all.len() == 0 {
        return false;
    }
    let p = chars_of("builtins.");
    let ghost views = char_vecs(all@);
    let mut i: usize = 0;
    while i < all.len()
        invariant
            i <= all.len(),
            views == char_vecs(all@),
            p@ == "builtins."@,
            forall|j: int| 0 <= j < i ==> has_prefix(#[trigger] views[j], "builtins."@),
        decreases all.len() - i,
    {
        if !starts_with(all[i].as_slice(), p.as_slice()) {
            assert(!has_prefix(views[i as int], "builtins."@));
            return false;
        }
        i = i + 1;
    }
    true
}

/// Payload label from the references: `tabular`, `ml_model`, `numeric_array`, `builtin_containers`.
pub fn content_hint(
    referenced_globals: &[String],
    builtin_types: &[String],
    saw_builtin_container: bool,
) -> (r: Option<String>)
    ensures
        opt_text(r) == spec_content_hint(
            strings_view(referenced_globals@),
            strings_view(builtin_types@),
            saw_builtin_container,
        ),
{
    let all = all_chars(referenced_globals, builtin_types);
    if any_contains(&all, "pandas") {
        return Some("tabular".to_owned());
    }
    if any_contains(&all, "sklearn") || any_contains(&all, "torch") || any_contains(
        &all,
        "xgboost",
    ) {
        return Some("ml_model".to_owned());
    }
    if any_contains(&all, "numpy._core") || any_contains(&all, "numpy.ndarray") || any_contains(
        &all,
        "numpy.dtype",
    ) {
        return Some("numeric_array".to_owned());
    }
    if all_builtins(&all) {
        return Some("builtin_containers".to_owned());
    }
    if referenced_globals.len() == 0 && builtin_types.len() == 0 && saw_builtin_container {
        return Some("builtin_containers".to_owned());
    }
    None
}

/// Splits references into (builtin, other), each keeping its order.
fn partition_refs(refs: &Vec<String>) -> (r: (Vec<String>, Vec<String>))
    ensures
        strings_view(r.0@) == select_refs(strings_view(refs@), true),
        strings_view(r.1@) == select_refs(strings_view(refs@), false),
{
    let mut builtin: Vec<String> = Vec::new();
    let mut other: Vec<String> = Vec::new();
    let mut i: usize = 0;
    while i < refs.len()
        invariant
            i <= refs.len(),
            strings_view(builtin@) == select_refs(strings_view(refs@.subrange(0, i as int)), true),
            strings_view(other@) == select_refs(strings_view(refs@.subrange(0, i as int)), false),
        decreases refs.len() - i,
    {
        let ghost prefix = strings_view(refs@.subrange(0, i + 1));
        assert(prefix.drop_last() =~= strings_view(refs@.subrange(0, i as int)));
        assert(prefix.last() == refs@[i as int]@);
        let item = refs[i].clone();
        if is_builtin_type(item.as_str()) {
            builtin.push(item);
            assert(strings_view(builtin@) =~= select_refs(prefix, true));
            assert(strings_view(other@) =~= select_refs(prefix, false));
        } else {
            other.push(item);
            assert(strings_view(builtin@) =~= select_refs(prefix, true));
            assert(strings_view(other@) =~= select_refs(prefix, false));
        }
        i = i + 1;
    }
    assert(refs@.subrange(0, refs.len() as int) =~= refs@);
    (builtin, other)
}

/// Pickle metadata from a header sniff and a read-only opcode walk over `bytes`;
/// `byte_count` is the file size reported back.
pub fn extract_pickle_metadata(bytes: &[u8], byte_count: usize) -> (m: PickleMetadata)
    ensures
        m.byte_count == byte_count,
        m.protocol == spec_header_protocol(bytes@),
        m.encoding@ == spec_encoding(bytes@),
        m.protocols_seen@ == spec_scan(bytes@).protocols_seen,
        m.frame_count == spec_scan(bytes@).frame_count,
        m.frame_bytes_total == spec_scan(bytes@).frame_bytes_total,
        strings_view(m.referenced_globals@) == select_refs(
            spec_scan(bytes@).referenced_globals,
            false,
        ),
        strings_view(m.builtin_types@) == select_refs(spec_scan(bytes@).referenced_globals, true),
        opt_text(m.content_hint) == spec_content_hint(
            select_refs(spec_scan(bytes@).referenced_globals, false),
            select_refs(spec_scan(bytes@).referenced_globals, true),
            spec_scan(bytes@).saw_builtin_container,
        ),
        m.scan_truncated == spec_scan(bytes@).scan_truncated,
        opt_text(m.scan_error) == spec_scan(bytes@).scan_error,
{
    let scan = scan_pickle_ops(bytes);
    let (builtin_types, referenced_globals) = partition_refs(&scan.referenced_globals);
    let hint = content_hint(
        referenced_globals.as_slice(),
        builtin_types.as_slice(),
        scan.saw_builtin_container,
    );
    PickleMetadata {
        byte_count,
        protocol: header_protocol(bytes),
        encoding: pickle_encoding(bytes).to_owned(),
        protocols_seen: scan.protocols_seen,
        frame_count: scan.frame_count,
        frame_bytes_total: scan.frame_bytes_total,
        referenced_globals,
        builtin_types,
        content_hint: hint,
        scan_truncated: scan.scan_truncated,
        scan_error: scan.scan_error,
    }
}

} // verus!
