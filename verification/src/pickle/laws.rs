//! Properties that every pickle scan has, whatever the input bytes.

use vstd::prelude::*;

use super::model::{
    global_ref, initial_state, memoize_spec, push_global_seq, run, sd_global, sd_opcode,
    select_refs, spec_scan, stack_global_spec, is_builtin_ref, valid_global, ScanView, StackView,
    VmState, MAX_GLOBALS, MAX_OPCODES,
};

verus! {

/// `t` is the text `module.name` of a valid module path and identifier.
pub open spec fn is_reference_text(t: Seq<char>) -> bool {
    exists|m: Seq<char>, n: Seq<char>| valid_global(m, n) && t == #[trigger] global_ref(m, n)
}

/// Recorded references: at most [`MAX_GLOBALS`], no repeats, each a valid `module.name`.
pub open spec fn globals_ok(g: Seq<Seq<char>>) -> bool {
    &&& g.len() <= MAX_GLOBALS
    &&& g.no_duplicates()
    &&& forall|i: int| 0 <= i < g.len() ==> is_reference_text(#[trigger] g[i])
}

/// What holds between any two opcodes of a run that has decoded `k` of them.
pub open spec fn scan_inv(sc: ScanView, k: nat) -> bool {
    &&& globals_ok(sc.referenced_globals)
    &&& (sc.scan_error is Some ==> sc.scan_truncated)
    &&& sc.frame_count <= k
}

proof fn lemma_push_global_ok(out: Seq<Seq<char>>, m: Seq<char>, n: Seq<char>)
    requires
        globals_ok(out),
        valid_global(m, n),
    ensures
        globals_ok(push_global_seq(out, m, n)),
{
    let r = push_global_seq(out, m, n);
    if out.len() < MAX_GLOBALS && !out.contains(global_ref(m, n)) {
        assert forall|i: int| 0 <= i < r.len() implies is_reference_text(#[trigger] r[i]) by {
            if i == out.len() {
                assert(r[i] == global_ref(m, n));
            } else {
                assert(r[i] == out[i]);
            }
        }
        assert forall|i: int, j: int| 0 <= i < r.len() && 0 <= j < r.len() && i != j implies r[i]
            != r[j] by {
            if i == out.len() {
                assert(r[j] == out[j]);
            } else if j == out.len() {
                assert(r[i] == out[i]);
            }
        }
    }
}

proof fn lemma_stack_global_ok(k: StackView, out: Seq<Seq<char>>)
    requires
        globals_ok(out),
    ensures
        globals_ok(stack_global_spec(k, out).1),
{
    if k.stack.len() >= 2 {
        let name = k.stack.last();
        let module = k.stack.drop_last().last();
        match (name, module) {
            (super::model::SlotView::Str(n), super::model::SlotView::Str(m)) => {
                if valid_global(m, n) {
                    lemma_push_global_ok(out, m, n);
                }
            },
            _ => {},
        }
    }
}

proof fn lemma_step_inv(op: u8, d: Seq<u8>, st: VmState, k: nat)
    requires
        scan_inv(st.scan, k),
    ensures
        scan_inv(sd_opcode(op, d, st).1.scan, k + 1),
{
    let (c, p, kk, sc) = sd_global(op, d, st.pos, st.stk, st.scan);
    if op == 0x63 || op == 0x69 {
        match super::model::rd_global_pair(d, st.pos) {
            (Some((m, n)), _) => {
                if valid_global(m, n) {
                    lemma_push_global_ok(st.scan.referenced_globals, m, n);
                }
            },
            _ => {},
        }
    } else if op == 0x93 {
        lemma_stack_global_ok(st.stk, st.scan.referenced_globals);
    }
}

proof fn lemma_run_inv(d: Seq<u8>, st: VmState, k: nat)
    requires
        scan_inv(st.scan, k),
        k <= MAX_OPCODES,
    ensures
        scan_inv(run(d, st, k).0.scan, run(d, st, k).1),
        run(d, st, k).1 <= MAX_OPCODES,
    decreases MAX_OPCODES - k,
{
    if 0 <= st.pos < d.len() && k < MAX_OPCODES {
        let st1 = VmState { pos: st.pos + 1, ..st };
        lemma_step_inv(d[st.pos], d, st1, k);
        let (c, next) = sd_opcode(d[st.pos], d, st1);
        if c {
            lemma_run_inv(d, next, k + 1);
        }
    }
}

/// Whatever the bytes, a scan records at most [`MAX_GLOBALS`] references, never the
/// same one twice, each of the form `module.name` with a dotted module path and an
/// identifier; an error message only comes with the truncation flag; and there are no
/// more frames than the opcode cap.
pub proof fn law_scan_results_well_formed(d: Seq<u8>)
    ensures
        globals_ok(spec_scan(d).referenced_globals),
        spec_scan(d).scan_error is Some ==> spec_scan(d).scan_truncated,
        spec_scan(d).frame_count <= MAX_OPCODES,
{
    assert(initial_state().scan.referenced_globals.no_duplicates());
    lemma_run_inv(d, initial_state(), 0);
}

/// `MEMOIZE` copies the stack top into the memo and leaves the stack as it was.
pub proof fn law_memoize_keeps_stack(k: StackView)
    ensures
        memoize_spec(k).stack == k.stack,
        k.stack.len() > 0 ==> memoize_spec(k).memo == k.memo.push(k.stack.last()),
        k.stack.len() == 0 ==> memoize_spec(k).memo == k.memo,
{
}

/// Splitting references into builtin and other ones loses nothing and mixes nothing:
/// the two parts together are as long as the whole, and each holds exactly its kind.
pub proof fn law_partition_refs(g: Seq<Seq<char>>)
    ensures
        select_refs(g, true).len() + select_refs(g, false).len() == g.len(),
        forall|i: int|
            0 <= i < select_refs(g, true).len() ==> is_builtin_ref(
                #[trigger] select_refs(g, true)[i],
            ) && g.contains(select_refs(g, true)[i]),
        forall|i: int|
            0 <= i < select_refs(g, false).len() ==> !is_builtin_ref(
                #[trigger] select_refs(g, false)[i],
            ) && g.contains(select_refs(g, false)[i]),
    decreases g.len(),
{
    if g.len() > 0 {
        law_partition_refs(g.drop_last());
        let t = select_refs(g, true);
        let f = select_refs(g, false);
        let t0 = select_refs(g.drop_last(), true);
        let f0 = select_refs(g.drop_last(), false);
        assert forall|i: int| 0 <= i < t.len() implies is_builtin_ref(#[trigger] t[i])
            && g.contains(t[i]) by {
            if i < t0.len() {
                assert(t[i] == t0[i]);
                let w = choose|w: int| 0 <= w < g.drop_last().len() && g.drop_last()[w] == t0[i];
                assert(g[w] == t[i]);
            } else {
                assert(t[i] == g.last());
                assert(g[g.len() - 1] == t[i]);
            }
        }
        assert forall|i: int| 0 <= i < f.len() implies !is_builtin_ref(#[trigger] f[i])
            && g.contains(f[i]) by {
            if i < f0.len() {
                assert(f[i] == f0[i]);
                let w = choose|w: int| 0 <= w < g.drop_last().len() && g.drop_last()[w] == f0[i];
                assert(g[w] == f[i]);
            } else {
                assert(f[i] == g.last());
                assert(g[g.len() - 1] == f[i]);
            }
        }
    }
}

} // verus!
