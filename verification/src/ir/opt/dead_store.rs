//! Removal of stores that a later store in the same block overwrites unread.

use vstd::prelude::*;
use vstd::hash_set::HashSetWithView;

use crate::ir::facts::read_operands;
use crate::ir::opt::{same_block_layout, same_function_header, same_program_header};
use crate::ir::{BasicBlock, Instr, IrFunction, IrProgram, Operand};

verus! {

broadcast use vstd::std_specs::hash::group_hash_axioms;

/// `(locals, globals)` with the slots that `ops` read taken out.
pub open spec fn unshadow_operands(sets: (Set<usize>, Set<usize>), ops: Seq<Operand>) -> (Set<usize>, Set<usize>)
    decreases ops.len(),
{
    if ops.len() == 0 {
        sets
    } else {
        let s = unshadow_operands(sets, ops.drop_last());
        match ops.last() {
            Operand::Local(id) => (s.0.remove(id.0), s.1),
            Operand::Global(id) => (s.0, s.1.remove(id.0)),
            _ => s,
        }
    }
}

/// `(locals, globals)` with the slots that `instr` reads taken out.
pub open spec fn unshadow_reads(sets: (Set<usize>, Set<usize>), instr: Instr) -> (Set<usize>, Set<usize>) {
    match instr {
        Instr::LoadGlobal { global, .. } => (sets.0, sets.1.remove(global.0)),
        Instr::LoadLocal { local, .. } => (sets.0.remove(local.0), sets.1),
        _ => unshadow_operands(sets, read_operands(instr)),
    }
}

/// Scanning `instrs` backwards with the locals and globals that a later store
/// overwrites before any read: a store to such a slot is dropped.
pub open spec fn dead_store_scan(instrs: Seq<Instr>, sets: (Set<usize>, Set<usize>)) -> Seq<Instr>
    decreases instrs.len(),
{
    if instrs.len() == 0 {
        seq![]
    } else {
        let instr = instrs.last();
        let rest = instrs.drop_last();
        match instr {
            Instr::StoreLocal { local, .. } => if sets.0.contains(local.0) {
                dead_store_scan(rest, sets)
            } else {
                dead_store_scan(rest, unshadow_reads((sets.0.insert(local.0), sets.1), instr)).push(instr)
            },
            Instr::StoreGlobal { global, .. } => if sets.1.contains(global.0) {
                dead_store_scan(rest, sets)
            } else {
                dead_store_scan(rest, unshadow_reads((sets.0, sets.1.insert(global.0)), instr)).push(instr)
            },
            _ => dead_store_scan(rest, unshadow_reads(sets, instr)).push(instr),
        }
    }
}

/// The instructions that dead store elimination keeps in a block.
pub open spec fn dead_store_block(block: BasicBlock) -> Seq<Instr> {
    dead_store_scan(block.instrs@, (Set::empty(), Set::empty()))
}

/// Dead store elimination never adds instructions.
pub proof fn lemma_dead_store_scan_len(instrs: Seq<Instr>, sets: (Set<usize>, Set<usize>))
    ensures
        dead_store_scan(instrs, sets).len() <= instrs.len(),
    decreases instrs.len(),
{
    if instrs.len() > 0 {
        let instr = instrs.last();
        let rest = instrs.drop_last();
        lemma_dead_store_scan_len(rest, sets);
        lemma_dead_store_scan_len(rest, unshadow_reads(sets, instr));
        match instr {
            Instr::StoreLocal { local, .. } =>
                lemma_dead_store_scan_len(rest, unshadow_reads((sets.0.insert(local.0), sets.1), instr)),
            Instr::StoreGlobal { global, .. } =>
                lemma_dead_store_scan_len(rest, unshadow_reads((sets.0, sets.1.insert(global.0)), instr)),
            _ => {},
        }
    }
}

proof fn lemma_unshadow_concat(sets: (Set<usize>, Set<usize>), a: Seq<Operand>, b: Seq<Operand>)
    ensures
        unshadow_operands(unshadow_operands(sets, a), b) == unshadow_operands(sets, a + b),
    decreases b.len(),
{
    if b.len() == 0 {
        assert(a + b =~= a);
    } else {
        lemma_unshadow_concat(sets, a, b.drop_last());
        assert((a + b).drop_last() =~= a + b.drop_last());
    }
}

fn unshadow_operand(op: &Operand, locals: &mut HashSetWithView<usize>, globals: &mut HashSetWithView<usize>)
    ensures
        (final(locals)@, final(globals)@) == unshadow_operands((old(locals)@, old(globals)@), seq![*op]),
{
    proof {
        assert(seq![*op].drop_last() =~= Seq::<Operand>::empty());
        assert(unshadow_operands((old(locals)@, old(globals)@), Seq::<Operand>::empty())
            == (old(locals)@, old(globals)@));
    }
    match op {
        Operand::Local(id) => {
            locals.remove(&id.0);
        },
        Operand::Global(id) => {
            globals.remove(&id.0);
        },
        Operand::Const(_) | Operand::Temp(_) => {},
    }
}

fn unshadow_operand_list(ops: &Vec<Operand>, locals: &mut HashSetWithView<usize>, globals: &mut HashSetWithView<usize>)
    ensures
        (final(locals)@, final(globals)@) == unshadow_operands((old(locals)@, old(globals)@), ops@),
{
    let mut k: usize = 0;
    while k < ops.len()
        invariant
            k <= ops@.len(),
            (locals@, globals@) == unshadow_operands((old(locals)@, old(globals)@), ops@.take(k as int)),
        decreases ops@.len() - k,
    {
        proof {
            assert(ops@.take(k + 1).drop_last() =~= ops@.take(k as int));
        }
        match &ops[k] {
            Operand::Local(id) => {
                locals.remove(&id.0);
            },
            Operand::Global(id) => {
                globals.remove(&id.0);
            },
            Operand::Const(_) | Operand::Temp(_) => {},
        }
        k += 1;
    }
    proof {
        assert(ops@.take(k as int) =~= ops@);
    }
}

fn unshadow_pair(a: &Operand, b: &Operand, locals: &mut HashSetWithView<usize>, globals: &mut HashSetWithView<usize>)
    ensures
        (final(locals)@, final(globals)@) == unshadow_operands((old(locals)@, old(globals)@), seq![*a, *b]),
{
    unshadow_operand(a, locals, globals);
    unshadow_operand(b, locals, globals);
    proof {
        lemma_unshadow_concat((old(locals)@, old(globals)@), seq![*a], seq![*b]);
        assert(seq![*a] + seq![*b] =~= seq![*a, *b]);
    }
}

/// Takes out of the shadowed sets the locals and globals that `instr` reads.
fn collect_reads(instr: &Instr, locals: &mut HashSetWithView<usize>, globals: &mut HashSetWithView<usize>)
    ensures
        (final(locals)@, final(globals)@) == unshadow_reads((old(locals)@, old(globals)@), *instr),
{
    match instr {
        Instr::Copy { src, .. } | Instr::Unary { operand: src, .. } => unshadow_operand(src, locals, globals),
        Instr::Binary { left, right, .. }
        | Instr::Compare { left, right, .. }
        | Instr::Logic { left, right, .. } => unshadow_pair(left, right, locals, globals),
        Instr::LoadGlobal { global, .. } => {
            globals.remove(&global.0);
        },
        Instr::LoadLocal { local, .. } => {
            locals.remove(&local.0);
        },
        Instr::StoreGlobal { value, .. }
        | Instr::StoreLocal { value, .. }
        | Instr::MakeArrayRepeat { value, .. }
        | Instr::VecPush { value, .. } => unshadow_operand(value, locals, globals),
        Instr::MakeArray { items, .. } => unshadow_operand_list(items, locals, globals),
        Instr::VecLen { vec, .. } => unshadow_operand(vec, locals, globals),
        Instr::ArrayGet { array, index, .. } | Instr::VecGet { vec: array, index, .. }
        | Instr::VecDelete { vec: array, index, .. } => unshadow_pair(array, index, locals, globals),
        Instr::ArraySet { array, index, value, .. }
        | Instr::VecSet { vec: array, index, value, .. } => {
            let ghost s0 = (locals@, globals@);
            unshadow_pair(array, index, locals, globals);
            unshadow_operand(value, locals, globals);
            proof {
                lemma_unshadow_concat(s0, seq![*array, *index], seq![*value]);
                assert(seq![*array, *index] + seq![*value] =~= seq![*array, *index, *value]);
            }
        },
        Instr::MakeStruct { fields, .. } => unshadow_operand_list(fields, locals, globals),
        Instr::StructGet { base, .. } => unshadow_operand(base, locals, globals),
        Instr::StructSet { base, value, .. } => unshadow_pair(base, value, locals, globals),
        Instr::CallDirect { args, .. } | Instr::CallBuiltin { args, .. } =>
            unshadow_operand_list(args, locals, globals),
        Instr::CallIndirect { callee, args, .. } => {
            let ghost s0 = (locals@, globals@);
            unshadow_operand(callee, locals, globals);
            unshadow_operand_list(args, locals, globals);
            proof {
                lemma_unshadow_concat(s0, seq![*callee], args@);
            }
        },
        Instr::Const { .. } | Instr::VecNew { .. } | Instr::MakeClosure { .. } => {},
    }
}

/// Removes the overwritten stores of one block; returns whether any was removed.
pub fn run_block(block: &mut BasicBlock) -> (changed: bool)
    ensures
        final(block).instrs@ == dead_store_block(*old(block)),
        final(block).id == old(block).id,
        final(block).name == old(block).name,
        final(block).terminator == old(block).terminator,
        changed == (dead_store_block(*old(block)).len() != old(block).instrs@.len()),
{
    let ghost orig = block.instrs@;
    let mut locals: HashSetWithView<usize> = HashSetWithView::new();
    let mut globals: HashSetWithView<usize> = HashSetWithView::new();
    let ghost sets0 = (locals@, globals@);
    assert(sets0 == (Set::<usize>::empty(), Set::<usize>::empty()));
    let mut instrs: Vec<Instr> = Vec::new();
    std::mem::swap(&mut instrs, &mut block.instrs);
    let mut kept: Vec<Instr> = Vec::new();
    let mut removed = false;
    proof {
        lemma_dead_store_scan_len(orig, sets0);
    }
    while instrs.len() > 0
        invariant
            dead_store_scan(orig, sets0) == dead_store_scan(instrs@, (locals@, globals@)) + kept@,
            kept@.len() + instrs@.len() <= orig.len(),
            removed == (kept@.len() + instrs@.len() < orig.len()),
            block.id == old(block).id,
            block.name == old(block).name,
            block.terminator == old(block).terminator,
        decreases instrs@.len(),
    {
        let ghost before = instrs@;
        let instr = instrs.pop().unwrap();
        assert(before.drop_last() =~= instrs@);
        match &instr {
            Instr::StoreLocal { local, .. } => {
                if locals.contains(&local.0) {
                    removed = true;
                    continue;
                }
                locals.insert(local.0);
            },
            Instr::StoreGlobal { global, .. } => {
                if globals.contains(&global.0) {
                    removed = true;
                    continue;
                }
                globals.insert(global.0);
            },
            _ => {},
        }
        collect_reads(&instr, &mut locals, &mut globals);
        let ghost k0 = kept@;
        kept.insert(0, instr);
        assert(kept@ =~= seq![instr] + k0);
        proof {
            let rest = dead_store_scan(instrs@, (locals@, globals@));
            assert(rest.push(instr) + k0 =~= rest + kept@);
        }
    }
    assert(dead_store_scan(instrs@, (locals@, globals@)) =~= Seq::<Instr>::empty());
    assert(kept@ =~= dead_store_scan(orig, sets0));
    block.instrs = kept;
    removed
}

/// Removes overwritten stores in one function; returns whether any was removed.
pub fn run_function(func: &mut IrFunction) -> (changed: bool)
    ensures
        same_function_header(*old(func), *final(func)),
        same_block_layout(*old(func), *final(func)),
        forall|k: int| 0 <= k < old(func).blocks@.len() ==> {
            &&& (#[trigger] final(func).blocks@[k]).instrs@ == dead_store_block(old(func).blocks@[k])
            &&& final(func).blocks@[k].terminator == old(func).blocks@[k].terminator
        },
        changed == exists|k: int| 0 <= k < old(func).blocks@.len()
            && dead_store_block(#[trigger] old(func).blocks@[k]).len() != old(func).blocks@[k].instrs@.len(),
{
    let mut changed = false;
    let mut k: usize = 0;
    while k < func.blocks.len()
        invariant
            k <= func.blocks@.len(),
            func.blocks@.len() == old(func).blocks@.len(),
            same_function_header(*old(func), *func),
            forall|j: int| 0 <= j < k ==> {
                &&& (#[trigger] func.blocks@[j]).instrs@ == dead_store_block(old(func).blocks@[j])
                &&& func.blocks@[j].terminator == old(func).blocks@[j].terminator
                &&& func.blocks@[j].id == old(func).blocks@[j].id
                &&& func.blocks@[j].name == old(func).blocks@[j].name
            },
            forall|j: int| k <= j < func.blocks@.len() ==> #[trigger] func.blocks@[j] == old(func).blocks@[j],
            changed == exists|j: int| 0 <= j < k
                && dead_store_block(#[trigger] old(func).blocks@[j]).len() != old(func).blocks@[j].instrs@.len(),
        decreases func.blocks@.len() - k,
    {
        let c = run_block(&mut func.blocks[k]);
        changed = changed || c;
        k += 1;
    }
    changed
}

/// Dead store elimination: in each block, removes a store to a local or global
/// when a later store of the same block overwrites it before any read of it.
/// Returns whether anything was removed.
pub fn run(program: &mut IrProgram) -> (changed: bool)
    ensures
        same_program_header(*old(program), *final(program)),
        forall|f: int| 0 <= f < old(program).functions@.len()
            ==> same_block_layout(old(program).functions@[f], #[trigger] final(program).functions@[f]),
        forall|f: int, k: int| 0 <= f < old(program).functions@.len()
            && 0 <= k < old(program).functions@[f].blocks@.len() ==> {
                &&& (#[trigger] final(program).functions@[f].blocks@[k]).instrs@
                    == dead_store_block(old(program).functions@[f].blocks@[k])
                &&& final(program).functions@[f].blocks@[k].terminator
                    == old(program).functions@[f].blocks@[k].terminator
            },
        changed == exists|f: int, k: int| 0 <= f < old(program).functions@.len()
            && 0 <= k < old(program).functions@[f].blocks@.len()
            && dead_store_block(#[trigger] old(program).functions@[f].blocks@[k]).len()
                != old(program).functions@[f].blocks@[k].instrs@.len(),
{
    let mut changed = false;
    let mut f: usize = 0;
    while f < program.functions.len()
        invariant
            f <= program.functions@.len(),
            program.functions@.len() == old(program).functions@.len(),
            program.globals == old(program).globals,
            program.structs == old(program).structs,
            program.module_init == old(program).module_init,
            forall|i: int| 0 <= i < f ==> {
                let nf = #[trigger] program.functions@[i];
                let of = old(program).functions@[i];
                &&& same_function_header(of, nf)
                &&& same_block_layout(of, nf)
                &&& forall|k: int| 0 <= k < of.blocks@.len() ==> {
                    &&& (#[trigger] nf.blocks@[k]).instrs@ == dead_store_block(of.blocks@[k])
                    &&& nf.blocks@[k].terminator == of.blocks@[k].terminator
                }
            },
            forall|i: int| f <= i < program.functions@.len()
                ==> #[trigger] program.functions@[i] == old(program).functions@[i],
            changed == exists|i: int, k: int| 0 <= i < f
                && 0 <= k < old(program).functions@[i].blocks@.len()
                && dead_store_block(#[trigger] old(program).functions@[i].blocks@[k]).len()
                    != old(program).functions@[i].blocks@[k].instrs@.len(),
        decreases program.functions@.len() - f,
    {
        let c = run_function(&mut program.functions[f]);
        changed = changed || c;
        f += 1;
    }
    changed
}

} // verus!
