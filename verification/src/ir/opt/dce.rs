//! Dead code elimination inside basic blocks.

use vstd::prelude::*;
use vstd::hash_set::HashSetWithView;

use crate::ir::facts::{
    add_temps, collect_instr_uses, collect_terminator_uses, instr_dst, is_pure, read_operands,
    spec_instr_dst, spec_is_pure, terminator_reads,
};
use crate::ir::opt::{same_block_code, same_block_layout, same_blocks_code, same_code, same_program_header};
use crate::ir::{BasicBlock, Instr, IrFunction, IrProgram};

verus! {

broadcast use vstd::std_specs::hash::group_hash_axioms;

/// Scanning `instrs` backwards with the temps in `live` still needed: a pure
/// instruction whose destination is not needed is dropped; the reads of every
/// instruction, dropped or kept, count as needed before it.
pub open spec fn dce_scan(instrs: Seq<Instr>, live: Set<usize>) -> Seq<Instr>
    decreases instrs.len(),
{
    if instrs.len() == 0 {
        seq![]
    } else {
        let instr = instrs.last();
        let live1 = add_temps(live, read_operands(instr));
        match spec_instr_dst(instr) {
            Some(d) => if !live1.contains(d.0) && spec_is_pure(instr) {
                dce_scan(instrs.drop_last(), live1)
            } else {
                dce_scan(instrs.drop_last(), live1.remove(d.0)).push(instr)
            },
            None => dce_scan(instrs.drop_last(), live1).push(instr),
        }
    }
}

/// The instructions that dead code elimination keeps in a block.
pub open spec fn dce_block(block: BasicBlock) -> Seq<Instr> {
    dce_scan(block.instrs@, add_temps(Set::empty(), terminator_reads(block.terminator)))
}

/// Dead code elimination never adds instructions.
pub proof fn lemma_dce_scan_len(instrs: Seq<Instr>, live: Set<usize>)
    ensures
        dce_scan(instrs, live).len() <= instrs.len(),
    decreases instrs.len(),
{
    if instrs.len() > 0 {
        let instr = instrs.last();
        let live1 = add_temps(live, read_operands(instr));
        lemma_dce_scan_len(instrs.drop_last(), live1);
        if let Some(d) = spec_instr_dst(instr) {
            lemma_dce_scan_len(instrs.drop_last(), live1.remove(d.0));
        }
    }
}

/// Removes the dead pure instructions of one block; returns whether any was removed.
pub fn run_block(block: &mut BasicBlock) -> (changed: bool)
    ensures
        final(block).instrs@ == dce_block(*old(block)),
        final(block).id == old(block).id,
        final(block).name == old(block).name,
        final(block).terminator == old(block).terminator,
        changed == (dce_block(*old(block)).len() != old(block).instrs@.len()),
{
    let ghost orig = block.instrs@;
    let mut live: HashSetWithView<usize> = HashSetWithView::new();
    collect_terminator_uses(&block.terminator, &mut live);
    let ghost live0 = live@;
    assert(live0 == add_temps(Set::empty(), terminator_reads(block.terminator)));
    let mut instrs: Vec<Instr> = Vec::new();
    std::mem::swap(&mut instrs, &mut block.instrs);
    let mut kept: Vec<Instr> = Vec::new();
    let mut removed = false;
    proof {
        lemma_dce_scan_len(orig, live0);
    }
    while instrs.len() > 0
        invariant
            dce_scan(orig, live0) == dce_scan(instrs@, live@) + kept@,
            kept@.len() + instrs@.len() <= orig.len(),
            removed == (kept@.len() + instrs@.len() < orig.len()),
            block.id == old(block).id,
            block.name == old(block).name,
            block.terminator == old(block).terminator,
        decreases instrs@.len(),
    {
        let ghost before = instrs@;
        let ghost live_before = live@;
        let instr = instrs.pop().unwrap();
        assert(before.drop_last() =~= instrs@);
        collect_instr_uses(&instr, &mut live);
        match instr_dst(&instr) {
            Some(dst) => {
                if !live.contains(&dst.0) && is_pure(&instr) {
                    removed = true;
                    continue;
                }
                live.remove(&dst.0);
            },
            None => {},
        }
        let ghost k0 = kept@;
        kept.insert(0, instr);
        assert(kept@ =~= seq![instr] + k0);
        proof {
            let rest = dce_scan(instrs@, live@);
            assert(rest.push(instr) + k0 =~= rest + kept@);
        }
    }
    assert(dce_scan(instrs@, live@) =~= Seq::<Instr>::empty());
    assert(kept@ =~= dce_scan(orig, live0));
    block.instrs = kept;
    removed
}

/// Removes dead instructions of one function; returns whether any was removed.
pub fn run_function(func: &mut IrFunction) -> (changed: bool)
    ensures
        final(func).id == old(func).id,
        final(func).name == old(func).name,
        final(func).params == old(func).params,
        final(func).locals == old(func).locals,
        final(func).temps == old(func).temps,
        final(func).ret_ty == old(func).ret_ty,
        final(func).entry == old(func).entry,
        same_block_layout(*old(func), *final(func)),
        forall|k: int| 0 <= k < old(func).blocks@.len() ==> {
            &&& (#[trigger] final(func).blocks@[k]).instrs@ == dce_block(old(func).blocks@[k])
            &&& final(func).blocks@[k].terminator == old(func).blocks@[k].terminator
        },
        changed == exists|k: int| 0 <= k < old(func).blocks@.len()
            && dce_block(#[trigger] old(func).blocks@[k]).len() != old(func).blocks@[k].instrs@.len(),
{
    let mut changed = false;
    let mut k: usize = 0;
    while k < func.blocks.len()
        invariant
            k <= func.blocks@.len(),
            func.blocks@.len() == old(func).blocks@.len(),
            func.id == old(func).id,
            func.name == old(func).name,
            func.params == old(func).params,
            func.locals == old(func).locals,
            func.temps == old(func).temps,
            func.ret_ty == old(func).ret_ty,
            func.entry == old(func).entry,
            forall|j: int| 0 <= j < k ==> {
                &&& (#[trigger] func.blocks@[j]).instrs@ == dce_block(old(func).blocks@[j])
                &&& func.blocks@[j].terminator == old(func).blocks@[j].terminator
                &&& func.blocks@[j].id == old(func).blocks@[j].id
                &&& func.blocks@[j].name == old(func).blocks@[j].name
            },
            forall|j: int| k <= j < func.blocks@.len() ==> #[trigger] func.blocks@[j] == old(func).blocks@[j],
            changed == exists|j: int| 0 <= j < k
                && dce_block(#[trigger] old(func).blocks@[j]).len() != old(func).blocks@[j].instrs@.len(),
        decreases func.blocks@.len() - k,
    {
        let c = run_block(&mut func.blocks[k]);
        changed = changed || c;
        k += 1;
    }
    changed
}

/// Dead code elimination: in each block, removes the pure instructions whose
/// destination temp nothing later in the block, nor its terminator, reads.
/// Returns whether anything was removed.
/// The program `new` is what this pass makes of `old`.
pub open spec fn run_to(old: IrProgram, new: IrProgram) -> bool {
    &&& same_program_header(old, new)
    &&& forall|f: int| 0 <= f < old.functions@.len()
        ==> same_block_layout(old.functions@[f], #[trigger] new.functions@[f])
    &&& forall|f: int, k: int| 0 <= f < old.functions@.len()
        && 0 <= k < old.functions@[f].blocks@.len() ==> {
            &&& (#[trigger] new.functions@[f].blocks@[k]).instrs@
                == dce_block(old.functions@[f].blocks@[k])
            &&& new.functions@[f].blocks@[k].terminator
                == old.functions@[f].blocks@[k].terminator
        }
}

/// The pass, taking `old` to `new`, reports a change.
pub open spec fn run_changes(old: IrProgram, new: IrProgram) -> bool {
    exists|f: int, k: int| 0 <= f < old.functions@.len()
        && 0 <= k < old.functions@[f].blocks@.len()
        && dce_block(#[trigger] old.functions@[f].blocks@[k]).len()
            != old.functions@[f].blocks@[k].instrs@.len()
}

pub fn run(program: &mut IrProgram) -> (changed: bool)
    ensures
        same_program_header(*old(program), *final(program)),
        forall|f: int| 0 <= f < old(program).functions@.len()
            ==> same_block_layout(old(program).functions@[f], #[trigger] final(program).functions@[f]),
        forall|f: int, k: int| 0 <= f < old(program).functions@.len()
            && 0 <= k < old(program).functions@[f].blocks@.len() ==> {
                &&& (#[trigger] final(program).functions@[f].blocks@[k]).instrs@
                    == dce_block(old(program).functions@[f].blocks@[k])
                &&& final(program).functions@[f].blocks@[k].terminator
                    == old(program).functions@[f].blocks@[k].terminator
            },
        changed == exists|f: int, k: int| 0 <= f < old(program).functions@.len()
            && 0 <= k < old(program).functions@[f].blocks@.len()
            && dce_block(#[trigger] old(program).functions@[f].blocks@[k]).len()
                != old(program).functions@[f].blocks@[k].instrs@.len(),
{
    let mut changed = false;
    let mut f: usize = 0;
    while f < program.functions.len()
        invariant
            f <= program.functions@.len(),
            program.functions@.len() == old(program).functions@.len(),
            program.globals == old(program).globals,
            program.structs == old(program).structs,
            program.module_init == old(program).module_init,
            forall|i: int| 0 <= i < f ==> {
                let nf = #[trigger] program.functions@[i];
                let of = old(program).functions@[i];
                &&& crate::ir::opt::same_function_header(of, nf)
                &&& same_block_layout(of, nf)
                &&& forall|k: int| 0 <= k < of.blocks@.len() ==> {
                    &&& (#[trigger] nf.blocks@[k]).instrs@ == dce_block(of.blocks@[k])
                    &&& nf.blocks@[k].terminator == of.blocks@[k].terminator
                }
            },
            forall|i: int| f <= i < program.functions@.len()
                ==> #[trigger] program.functions@[i] == old(program).functions@[i],
            changed == exists|i: int, k: int| 0 <= i < f
                && 0 <= k < old(program).functions@[i].blocks@.len()
                && dce_block(#[trigger] old(program).functions@[i].blocks@[k]).len()
                    != old(program).functions@[i].blocks@[k].instrs@.len(),
        decreases program.functions@.len() - f,
    {
        let c = run_function(&mut program.functions[f]);
        changed = changed || c;
        f += 1;
    }
    changed
}


/// A scan that removes nothing keeps the instructions as they were.
proof fn lemma_dce_scan_full(instrs: Seq<Instr>, live: Set<usize>)
    requires
        dce_scan(instrs, live).len() == instrs.len(),
    ensures
        dce_scan(instrs, live) == instrs,
    decreases instrs.len(),
{
    if instrs.len() > 0 {
        let instr = instrs.last();
        let live1 = add_temps(live, read_operands(instr));
        lemma_dce_scan_len(instrs.drop_last(), live1);
        match spec_instr_dst(instr) {
            Some(d) => if !live1.contains(d.0) && spec_is_pure(instr) {
            } else {
                lemma_dce_scan_full(instrs.drop_last(), live1.remove(d.0));
                assert(instrs.drop_last().push(instr) =~= instrs);
            },
            None => {
                lemma_dce_scan_full(instrs.drop_last(), live1);
                assert(instrs.drop_last().push(instr) =~= instrs);
            },
        }
    }
}

/// A run that reports no change leaves the code as it was.
pub proof fn lemma_quiet_run_keeps_code(old: IrProgram, new: IrProgram)
    requires
        run_to(old, new),
        !run_changes(old, new),
    ensures
        same_code(old, new),
{
    assert forall|f: int| 0 <= f < old.functions@.len()
        implies same_blocks_code((#[trigger] old.functions@[f]).blocks@, new.functions@[f].blocks@) by {
        let ob = old.functions@[f].blocks@;
        let nb = new.functions@[f].blocks@;
        assert(same_block_layout(old.functions@[f], new.functions@[f]));
        assert forall|k: int| 0 <= k < ob.len() implies same_block_code(#[trigger] ob[k], nb[k]) by {
            assert(new.functions@[f].blocks@[k].instrs@ == dce_block(old.functions@[f].blocks@[k]));
            assert(dce_block(old.functions@[f].blocks@[k]).len() == old.functions@[f].blocks@[k].instrs@.len());
            lemma_dce_scan_full(ob[k].instrs@, add_temps(Set::empty(), terminator_reads(ob[k].terminator)));
        }
    }
}

/// Whether a run reports a change depends only on the code of the program.
pub proof fn lemma_changes_follow_code(a: IrProgram, a2: IrProgram, b: IrProgram, b2: IrProgram)
    requires
        same_code(a, a2),
    ensures
        run_changes(a, b) == run_changes(a2, b2),
{
    assert forall|f: int, k: int| 0 <= f < a.functions@.len() && 0 <= k < a.functions@[f].blocks@.len()
        implies dce_block(#[trigger] a.functions@[f].blocks@[k]).len() - a.functions@[f].blocks@[k].instrs@.len()
            == dce_block(a2.functions@[f].blocks@[k]).len() - a2.functions@[f].blocks@[k].instrs@.len() by {
        assert(same_blocks_code(a.functions@[f].blocks@, a2.functions@[f].blocks@));
        assert(same_block_code(a.functions@[f].blocks@[k], a2.functions@[f].blocks@[k]));
    }
    if run_changes(a2, b2) {
        let (f, k) = choose|f: int, k: int| 0 <= f < a2.functions@.len()
            && 0 <= k < a2.functions@[f].blocks@.len()
            && dce_block(#[trigger] a2.functions@[f].blocks@[k]).len() != a2.functions@[f].blocks@[k].instrs@.len();
        assert(same_blocks_code(a.functions@[f].blocks@, a2.functions@[f].blocks@));
        assert(dce_block(a.functions@[f].blocks@[k]).len() != a.functions@[f].blocks@[k].instrs@.len());
    }
}


/// An instruction whose effect reaches beyond its destination temp: a call
/// (which may do anything) or a store into a local, a global, an array, a
/// vector or a struct.
pub open spec fn has_outside_effect(instr: Instr) -> bool {
    match instr {
        Instr::CallDirect { .. } | Instr::CallBuiltin { .. } | Instr::CallIndirect { .. }
        | Instr::StoreGlobal { .. } | Instr::StoreLocal { .. } | Instr::ArraySet { .. }
        | Instr::VecSet { .. } | Instr::VecPush { .. } | Instr::StructSet { .. } => true,
        _ => false,
    }
}

/// The instructions of `instrs` that have an outside effect, in order.
pub open spec fn outside_effects(instrs: Seq<Instr>) -> Seq<Instr>
    decreases instrs.len(),
{
    if instrs.len() == 0 {
        seq![]
    } else if has_outside_effect(instrs.last()) {
        outside_effects(instrs.drop_last()).push(instrs.last())
    } else {
        outside_effects(instrs.drop_last())
    }
}

proof fn lemma_scan_keeps_effects(instrs: Seq<Instr>, live: Set<usize>)
    ensures
        outside_effects(dce_scan(instrs, live)) == outside_effects(instrs),
    decreases instrs.len(),
{
    if instrs.len() > 0 {
        let instr = instrs.last();
        let live1 = add_temps(live, read_operands(instr));
        match spec_instr_dst(instr) {
            Some(d) => if !live1.contains(d.0) && spec_is_pure(instr) {
                lemma_scan_keeps_effects(instrs.drop_last(), live1);
            } else {
                let kept = dce_scan(instrs.drop_last(), live1.remove(d.0));
                lemma_scan_keeps_effects(instrs.drop_last(), live1.remove(d.0));
                assert(kept.push(instr).drop_last() =~= kept);
            },
            None => {
                let kept = dce_scan(instrs.drop_last(), live1);
                lemma_scan_keeps_effects(instrs.drop_last(), live1);
                assert(kept.push(instr).drop_last() =~= kept);
            },
        }
    }
}

/// Dead code elimination keeps every instruction with an outside effect,
/// in order: calls and stores are never removed.
pub proof fn lemma_dce_keeps_outside_effects(block: BasicBlock)
    ensures
        outside_effects(dce_block(block)) == outside_effects(block.instrs@),
{
    lemma_scan_keeps_effects(block.instrs@, add_temps(Set::empty(), terminator_reads(block.terminator)));
}


/// The instructions that dead code elimination may remove when their result
/// is unused are exactly those without an outside effect.
pub proof fn lemma_removable_iff_no_outside_effect(instr: Instr)
    ensures
        spec_is_pure(instr) <==> !has_outside_effect(instr),
{
}

} // verus!
