//! Optimization passes over IR programs.

use vstd::prelude::*;

use crate::ir::{BasicBlock, IrFunction, IrProgram};

pub mod cfg_simplify;
pub mod const_fold;
pub mod dce;
pub mod dead_store;
pub mod licm;
pub mod loop_simplify;
pub mod strength_reduce;

verus! {

/// Two functions agree on everything but their blocks.
pub open spec fn same_function_header(a: IrFunction, b: IrFunction) -> bool {
    &&& a.id == b.id
    &&& a.name == b.name
    &&& a.params == b.params
    &&& a.locals == b.locals
    &&& a.temps == b.temps
    &&& a.ret_ty == b.ret_ty
    &&& a.entry == b.entry
}

/// Two programs agree on everything but the functions' blocks, and have as many functions.
pub open spec fn same_program_header(a: IrProgram, b: IrProgram) -> bool {
    &&& a.globals == b.globals
    &&& a.structs == b.structs
    &&& a.module_init == b.module_init
    &&& a.functions@.len() == b.functions@.len()
    &&& forall|f: int| 0 <= f < a.functions@.len()
        ==> same_function_header(#[trigger] a.functions@[f], b.functions@[f])
}

/// Two functions have the same blocks by id and name, in the same order.
pub open spec fn same_block_layout(a: IrFunction, b: IrFunction) -> bool {
    &&& a.blocks@.len() == b.blocks@.len()
    &&& forall|k: int| 0 <= k < a.blocks@.len()
        ==> (#[trigger] a.blocks@[k]).id == b.blocks@[k].id && a.blocks@[k].name == b.blocks@[k].name
}

/// Two blocks hold the same code: the same id, name, instructions and terminator.
pub open spec fn same_block_code(a: BasicBlock, b: BasicBlock) -> bool {
    &&& a.id == b.id
    &&& a.name == b.name
    &&& a.instrs@ == b.instrs@
    &&& a.terminator == b.terminator
}

/// Two block lists hold the same code, block by block.
pub open spec fn same_blocks_code(a: Seq<BasicBlock>, b: Seq<BasicBlock>) -> bool {
    &&& a.len() == b.len()
    &&& forall|k: int| 0 <= k < a.len() ==> same_block_code(#[trigger] a[k], b[k])
}

/// Two programs hold the same code: they agree on everything but the
/// functions' blocks, and those hold the same code.
pub open spec fn same_code(a: IrProgram, b: IrProgram) -> bool {
    &&& same_program_header(a, b)
    &&& forall|f: int| 0 <= f < a.functions@.len()
        ==> same_blocks_code((#[trigger] a.functions@[f]).blocks@, b.functions@[f].blocks@)
}

/// Agreeing on everything but the functions' blocks is transitive.
pub proof fn lemma_same_program_header_transitive(a: IrProgram, b: IrProgram, c: IrProgram)
    requires
        same_program_header(a, b),
        same_program_header(b, c),
    ensures
        same_program_header(a, c),
{
    assert forall|f: int| 0 <= f < a.functions@.len() implies same_function_header(#[trigger] a.functions@[f], c.functions@[f]) by {
        assert(same_function_header(a.functions@[f], b.functions@[f]));
        assert(same_function_header(b.functions@[f], c.functions@[f]));
    }
}

/// Pass `k` of a round (`k` taken modulo 5: constant folding, dead code
/// elimination, control-flow simplification, loop-invariant code motion,
/// strength reduction) takes `a` to `b`.
pub open spec fn pass_step(k: int, a: IrProgram, b: IrProgram) -> bool {
    if k % 5 == 0 {
        const_fold::run_to(a, b)
    } else if k % 5 == 1 {
        dce::run_to(a, b)
    } else if k % 5 == 2 {
        cfg_simplify::run_to(a, b)
    } else if k % 5 == 3 {
        licm::run_to(a, b)
    } else {
        strength_reduce::run_to(a, b)
    }
}

/// Pass `k` of a round, taking `a` to `b`, reports a change.
pub open spec fn pass_changes(k: int, a: IrProgram, b: IrProgram) -> bool {
    if k % 5 == 0 {
        const_fold::run_changes(a, b)
    } else if k % 5 == 1 {
        dce::run_changes(a, b)
    } else if k % 5 == 2 {
        cfg_simplify::run_changes(a, b)
    } else if k % 5 == 3 {
        licm::run_changes(a, b)
    } else {
        strength_reduce::run_changes(a, b)
    }
}

/// The programs `t` are the optimizer's way from `a` to `b`: one or more
/// rounds of the five passes in turn, each program what the pass makes of
/// the one before, and no pass of the last round reporting a change (unless
/// `u64::MAX` rounds ran).
pub open spec fn optimize_trace(t: Seq<IrProgram>, a: IrProgram, b: IrProgram) -> bool {
    &&& t.len() >= 6
    &&& (t.len() - 1) % 5 == 0
    &&& t[0] == a
    &&& t.last() == b
    &&& forall|i: int| 0 <= i < t.len() - 1 ==> pass_step(i, #[trigger] t[i], t[i + 1])
    &&& (forall|i: int| t.len() - 6 <= i < t.len() - 1 ==> !pass_changes(i, #[trigger] t[i], t[i + 1]))
        || t.len() == 5 * (u64::MAX as int) + 1
}

/// A pass's place in its round does not change when whole rounds come before.
proof fn lemma_pass_shift(i: int, n: int, a: IrProgram, b: IrProgram)
    requires
        n % 5 == 0,
        n >= 0,
    ensures
        pass_step(i - n, a, b) == pass_step(i, a, b),
        pass_changes(i - n, a, b) == pass_changes(i, a, b),
{
    assert((i - n) % 5 == i % 5) by (nonlinear_arith)
        requires
            n % 5 == 0,
    ;
}

/// One round: the five passes in turn. Gives whether any reported a change,
/// and the programs from the one given to the one left, pass by pass.
fn run_round(program: &mut IrProgram) -> (r: (bool, Ghost<Seq<IrProgram>>))
    ensures
        same_program_header(*old(program), *final(program)),
        r.1@.len() == 6,
        r.1@[0] == *old(program),
        r.1@[5] == *final(program),
        forall|i: int| 0 <= i < 5 ==> pass_step(i, #[trigger] r.1@[i], r.1@[i + 1]),
        !r.0 ==> forall|i: int| 0 <= i < 5 ==> !pass_changes(i, #[trigger] r.1@[i], r.1@[i + 1]),
{
    let ghost start = *program;
    let c1 = const_fold::run(program);
    let ghost p1 = *program;
    let c2 = dce::run(program);
    let ghost p2 = *program;
    let c3 = cfg_simplify::run(program);
    let ghost p3 = *program;
    let c4 = licm::run(program);
    let ghost p4 = *program;
    let c5 = strength_reduce::run(program);
    proof {
        lemma_same_program_header_transitive(start, p1, p2);
        lemma_same_program_header_transitive(start, p2, p3);
        lemma_same_program_header_transitive(start, p3, p4);
        lemma_same_program_header_transitive(start, p4, *program);
    }
    let ghost steps = seq![start, p1, p2, p3, p4, *program];
    assert(pass_step(0, steps[0], steps[1]));
    assert(pass_step(1, steps[1], steps[2]));
    assert(pass_step(2, steps[2], steps[3]));
    assert(pass_step(3, steps[3], steps[4]));
    assert(pass_step(4, steps[4], steps[5]));
    (c1 || c2 || c3 || c4 || c5, Ghost(steps))
}

/// Runs constant folding, dead code elimination, control-flow
/// simplification, loop-invariant code motion and strength reduction in turn,
/// round after round, until a round changes nothing (or `u64::MAX` rounds
/// have run). Only the functions' blocks change.
#[verifier::rlimit(40)]
pub fn optimize_program(program: &mut IrProgram)
    ensures
        same_program_header(*old(program), *final(program)),
        exists|t: Seq<IrProgram>| #[trigger] optimize_trace(t, *old(program), *final(program)),
{
    let ghost mut t: Seq<IrProgram> = seq![*program];
    let ghost mut quiet = false;
    let mut rounds: u64 = 0;
    while rounds < u64::MAX
        invariant_except_break
            !quiet,
        invariant
            same_program_header(*old(program), *program),
            t.len() == 5 * (rounds as int) + 1,
            t[0] == *old(program),
            t.last() == *program,
            forall|i: int| 0 <= i < t.len() - 1 ==> pass_step(i, #[trigger] t[i], t[i + 1]),
        ensures
            same_program_header(*old(program), *program),
            t.len() == 5 * (rounds as int) + 1,
            t[0] == *old(program),
            t.last() == *program,
            forall|i: int| 0 <= i < t.len() - 1 ==> pass_step(i, #[trigger] t[i], t[i + 1]),
            rounds >= 1,
            quiet ==> forall|i: int| t.len() - 6 <= i < t.len() - 1 ==> !pass_changes(i, #[trigger] t[i], t[i + 1]),
            quiet || rounds == u64::MAX,
        decreases u64::MAX - rounds,
    {
        rounds += 1;
        let (changed, steps) = run_round(program);
        proof {
            lemma_same_program_header_transitive(*old(program), steps@[0], *program);
            let t0 = t;
            let n = t0.len() - 1;
            t = t0 + steps@.drop_first();
            assert(n % 5 == 0);
            assert forall|i: int| 0 <= i < t.len() - 1 implies pass_step(i, #[trigger] t[i], t[i + 1]) by {
                if i < n {
                    assert(t[i] == t0[i] && t[i + 1] == t0[i + 1]);
                } else {
                    assert(t[i] == steps@[i - n] && t[i + 1] == steps@[i - n + 1]);
                    lemma_pass_shift(i, n, steps@[i - n], steps@[i - n + 1]);
                }
            }
            if !changed {
                assert forall|i: int| t.len() - 6 <= i < t.len() - 1 implies !pass_changes(i, #[trigger] t[i], t[i + 1]) by {
                    assert(t[i] == steps@[i - n] && t[i + 1] == steps@[i - n + 1]);
                    lemma_pass_shift(i, n, steps@[i - n], steps@[i - n + 1]);
                }
                quiet = true;
            }
        }
        if !changed {
            break;
        }
    }
    assert(optimize_trace(t, *old(program), *program));
}


proof fn lemma_same_code_reflexive(a: IrProgram)
    ensures
        same_code(a, a),
{
    assert forall|f: int| 0 <= f < a.functions@.len() implies same_function_header(#[trigger] a.functions@[f], a.functions@[f]) by {}
}

proof fn lemma_same_code_symmetric(a: IrProgram, b: IrProgram)
    requires
        same_code(a, b),
    ensures
        same_code(b, a),
{
    assert forall|f: int| 0 <= f < b.functions@.len() implies same_function_header(#[trigger] b.functions@[f], a.functions@[f]) by {
        assert(same_function_header(a.functions@[f], b.functions@[f]));
    }
    assert forall|f: int| 0 <= f < b.functions@.len()
        implies same_blocks_code((#[trigger] b.functions@[f]).blocks@, a.functions@[f].blocks@) by {
        assert(same_blocks_code(a.functions@[f].blocks@, b.functions@[f].blocks@));
        assert forall|k: int| 0 <= k < b.functions@[f].blocks@.len()
            implies same_block_code(#[trigger] b.functions@[f].blocks@[k], a.functions@[f].blocks@[k]) by {
            assert(same_block_code(a.functions@[f].blocks@[k], b.functions@[f].blocks@[k]));
        }
    }
}

proof fn lemma_same_code_transitive(a: IrProgram, b: IrProgram, c: IrProgram)
    requires
        same_code(a, b),
        same_code(b, c),
    ensures
        same_code(a, c),
{
    lemma_same_program_header_transitive(a, b, c);
    assert forall|f: int| 0 <= f < a.functions@.len()
        implies same_blocks_code((#[trigger] a.functions@[f]).blocks@, c.functions@[f].blocks@) by {
        assert(same_blocks_code(a.functions@[f].blocks@, b.functions@[f].blocks@));
        assert(same_blocks_code(b.functions@[f].blocks@, c.functions@[f].blocks@));
        assert forall|k: int| 0 <= k < a.functions@[f].blocks@.len()
            implies same_block_code(#[trigger] a.functions@[f].blocks@[k], c.functions@[f].blocks@[k]) by {
            assert(same_block_code(a.functions@[f].blocks@[k], b.functions@[f].blocks@[k]));
            assert(same_block_code(b.functions@[f].blocks@[k], c.functions@[f].blocks@[k]));
        }
    }
}

/// A pass that reports no change leaves the code as it was.
proof fn lemma_quiet_pass_keeps_code(i: int, a: IrProgram, b: IrProgram)
    requires
        pass_step(i, a, b),
        !pass_changes(i, a, b),
    ensures
        same_code(a, b),
{
    if i % 5 == 0 {
        const_fold::lemma_quiet_run_keeps_code(a, b);
    } else if i % 5 == 1 {
        dce::lemma_quiet_run_keeps_code(a, b);
    } else if i % 5 == 2 {
        cfg_simplify::lemma_quiet_run_keeps_code(a, b);
    } else if i % 5 == 3 {
        licm::lemma_quiet_run_keeps_code(a, b);
    } else {
        strength_reduce::lemma_quiet_run_keeps_code(a, b);
    }
}

/// Whether a pass reports a change depends only on the code it is given.
proof fn lemma_pass_changes_follow_code(i: int, j: int, a: IrProgram, a2: IrProgram, b: IrProgram, b2: IrProgram)
    requires
        i % 5 == j % 5,
        same_code(a, a2),
        pass_step(i, a, b),
        pass_step(j, a2, b2),
    ensures
        pass_changes(i, a, b) == pass_changes(j, a2, b2),
{
    if i % 5 == 0 {
        const_fold::lemma_changes_follow_code(a, a2, b, b2);
    } else if i % 5 == 1 {
        dce::lemma_changes_follow_code(a, a2, b, b2);
    } else if i % 5 == 2 {
        cfg_simplify::lemma_changes_follow_code(a, a2, b, b2);
    } else if i % 5 == 3 {
        licm::lemma_changes_follow_code(a, a2, b, b2);
    } else {
        strength_reduce::lemma_changes_follow_code(a, a2, b, b2);
    }
}

/// From position `j` of a quiet last round on, the programs hold the code of the last one.
proof fn lemma_quiet_tail(t: Seq<IrProgram>, j: int)
    requires
        t.len() >= 6,
        t.len() - 6 <= j <= t.len() - 1,
        forall|i: int| 0 <= i < t.len() - 1 ==> pass_step(i, #[trigger] t[i], t[i + 1]),
        forall|i: int| t.len() - 6 <= i < t.len() - 1 ==> !pass_changes(i, #[trigger] t[i], t[i + 1]),
    ensures
        same_code(t[j], t.last()),
    decreases t.len() - j,
{
    if j == t.len() - 1 {
        lemma_same_code_reflexive(t.last());
    } else {
        lemma_quiet_tail(t, j + 1);
        assert(pass_step(j, t[j], t[j + 1]));
        assert(!pass_changes(j, t[j], t[j + 1]));
        lemma_quiet_pass_keeps_code(j, t[j], t[j + 1]);
        lemma_same_code_transitive(t[j], t[j + 1], t.last());
    }
}

proof fn lemma_round_place(s: int, k: int)
    requires
        s % 5 == 0,
        s >= 0,
        0 <= k,
    ensures
        (s + k % 5) % 5 == k % 5,
{
    assert((s + k % 5) % 5 == k % 5) by (nonlinear_arith)
        requires
            s % 5 == 0,
            s >= 0,
            k >= 0,
    ;
}

/// A program the optimizer leaves after a round in which no pass reported
/// a change is a fixed point of every pass: run on it, each reports no change.
#[verifier::spinoff_prover]
#[verifier::rlimit(40)]
pub proof fn lemma_optimized_program_is_a_fixpoint(t: Seq<IrProgram>, a: IrProgram, b: IrProgram, k: int, c: IrProgram)
    requires
        optimize_trace(t, a, b),
        t.len() < 5 * (u64::MAX as int) + 1,
        0 <= k < 5,
        pass_step(k, b, c),
    ensures
        !pass_changes(k, b, c),
{
    let s = t.len() - 6;
    assert(s % 5 == 0);
    lemma_round_place(s, k);
    let i0 = s + k;
    lemma_quiet_tail(t, i0);
    assert(pass_step(i0, t[i0], t[i0 + 1]));
    assert(!pass_changes(i0, t[i0], t[i0 + 1]));
    lemma_pass_changes_follow_code(i0, k, t[i0], b, t[i0 + 1], c);
}

#[verifier::spinoff_prover]
#[verifier::rlimit(40)]
proof fn lemma_reoptimized_prefix(t: Seq<IrProgram>, a: IrProgram, b: IrProgram, t2: Seq<IrProgram>, b2: IrProgram, j: int)
    requires
        optimize_trace(t, a, b),
        t.len() < 5 * (u64::MAX as int) + 1,
        optimize_trace(t2, b, b2),
        0 <= j <= t2.len() - 1,
    ensures
        same_code(b, t2[j]),
    decreases j,
{
    if j == 0 {
        lemma_same_code_reflexive(b);
    } else {
        let p = j - 1;
        lemma_reoptimized_prefix(t, a, b, t2, b2, p);
        let s = t.len() - 6;
        assert(s % 5 == 0);
        lemma_round_place(s, p);
        let i0 = s + p % 5;
        lemma_quiet_tail(t, i0);
        assert(pass_step(i0, t[i0], t[i0 + 1]));
        assert(!pass_changes(i0, t[i0], t[i0 + 1]));
        lemma_same_code_transitive(t[i0], b, t2[p]);
        assert(pass_step(p, t2[p], t2[p + 1]));
        lemma_pass_changes_follow_code(i0, p, t[i0], t2[p], t[i0 + 1], t2[p + 1]);
        lemma_quiet_pass_keeps_code(p, t2[p], t2[p + 1]);
        lemma_same_code_transitive(b, t2[p], t2[p + 1]);
    }
}

/// Optimizing again a program that the optimizer left after a round in
/// which no pass reported a change changes none of its code.
pub proof fn lemma_reoptimizing_changes_no_code(t: Seq<IrProgram>, a: IrProgram, b: IrProgram, t2: Seq<IrProgram>, b2: IrProgram)
    requires
        optimize_trace(t, a, b),
        t.len() < 5 * (u64::MAX as int) + 1,
        optimize_trace(t2, b, b2),
    ensures
        same_code(b, b2),
{
    lemma_reoptimized_prefix(t, a, b, t2, b2, t2.len() - 1);
}

} // verus!
