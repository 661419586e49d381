//! Bypassing of empty loop bodies.

use vstd::prelude::*;
use vstd::hash_map::HashMapWithView;

use crate::ir::opt::cfg_simplify::{keep_blocks, reachable_ids, remove_unreachable_blocks};
use crate::ir::opt::{same_function_header, same_program_header};
use crate::ir::{BasicBlock, BlockId, BranchTerminator, IrFunction, IrProgram, Terminator, copy_operand};
use crate::text::text_eq;

verus! {

broadcast use vstd::std_specs::hash::group_hash_axioms;

/// A loop body block (`while_body` or `for_body`) that only jumps.
pub open spec fn is_empty_loop_body(block: BasicBlock) -> bool {
    (block.name@ == "while_body"@ || block.name@ == "for_body"@) && block.instrs@.len() == 0
        && block.terminator is Jump
}

/// Each empty loop body mapped to its jump target (a later block with the same id wins).
pub open spec fn loop_redirects(blocks: Seq<BasicBlock>) -> Map<usize, usize>
    decreases blocks.len(),
{
    if blocks.len() == 0 {
        Map::empty()
    } else {
        let m = loop_redirects(blocks.drop_last());
        let b = blocks.last();
        if is_empty_loop_body(b) {
            m.insert(b.id.0, match b.terminator { Terminator::Jump(t) => t.0, _ => 0 })
        } else {
            m
        }
    }
}

/// One redirect step.
pub open spec fn step(m: Map<usize, usize>, t: usize) -> usize {
    if m.contains_key(t) { m[t] } else { t }
}

/// A terminator with each target moved one redirect step.
pub open spec fn step_terminator(term: Terminator, m: Map<usize, usize>) -> Terminator {
    match term {
        Terminator::Jump(t) => Terminator::Jump(BlockId(step(m, t.0))),
        Terminator::Branch(b) => Terminator::Branch(BranchTerminator {
            cond: b.cond,
            then_block: BlockId(step(m, b.then_block.0)),
            else_block: BlockId(step(m, b.else_block.0)),
        }),
        _ => term,
    }
}

/// A block with each target moved one redirect step.
pub open spec fn step_block(block: BasicBlock, m: Map<usize, usize>) -> BasicBlock {
    BasicBlock { id: block.id, name: block.name, instrs: block.instrs, terminator: step_terminator(block.terminator, m) }
}

/// Some target of `term` is redirected.
pub open spec fn hits(term: Terminator, m: Map<usize, usize>) -> bool {
    match term {
        Terminator::Jump(t) => m.contains_key(t.0),
        Terminator::Branch(b) => m.contains_key(b.then_block.0) || m.contains_key(b.else_block.0),
        _ => false,
    }
}

/// Some target of some block of `f` goes to an empty loop body.
pub open spec fn function_hits(f: IrFunction) -> bool {
    let m = loop_redirects(f.blocks@);
    !m.is_empty() && exists|k: int| 0 <= k < f.blocks@.len() && hits(#[trigger] f.blocks@[k].terminator, m)
}

/// The blocks of `f` after bypassing, and pruning when `prune` holds.
pub open spec fn simplified_blocks(f: IrFunction, prune: bool) -> Seq<BasicBlock> {
    let m = loop_redirects(f.blocks@);
    let stepped = f.blocks@.map_values(|b: BasicBlock| step_block(b, m));
    if m.is_empty() {
        f.blocks@
    } else if prune {
        keep_blocks(stepped, reachable_ids(stepped, f.entry.0))
    } else {
        stepped
    }
}

fn is_named(block: &BasicBlock, name: &str) -> (r: bool)
    ensures
        r == (block.name@ == name@),
{
    text_eq(block.name.as_str(), name)
}

fn collect_loop_redirects(func: &IrFunction) -> (r: HashMapWithView<usize, usize>)
    ensures
        r@ == loop_redirects(func.blocks@),
{
    let mut m: HashMapWithView<usize, usize> = HashMapWithView::new();
    let mut k: usize = 0;
    while k < func.blocks.len()
        invariant
            k <= func.blocks@.len(),
            m@ == loop_redirects(func.blocks@.take(k as int)),
        decreases func.blocks@.len() - k,
    {
        proof {
            assert(func.blocks@.take(k + 1).drop_last() =~= func.blocks@.take(k as int));
        }
        let block = &func.blocks[k];
        let is_loop_body = is_named(block, "while_body") || is_named(block, "for_body");
        if is_loop_body && block.instrs.len() == 0 {
            if let Terminator::Jump(target) = &block.terminator {
                m.insert(block.id.0, target.0);
            }
        }
        k += 1;
    }
    proof {
        assert(func.blocks@.take(k as int) =~= func.blocks@);
    }
    m
}

fn step_target(m: &HashMapWithView<usize, usize>, t: usize) -> (r: (usize, bool))
    ensures
        r.0 == step(m@, t),
        r.1 == m@.contains_key(t),
{
    match m.get(&t) {
        Some(next) => (*next, true),
        None => (t, false),
    }
}

/// Loop simplification: in each function, a jump or branch to an empty
/// `while_body` or `for_body` block that only jumps is redirected to that
/// block's target (one step). Once any function has been changed, each
/// following function that has such blocks is also pruned of the blocks no
/// longer reached. Returns whether anything changed.
pub fn run(program: &mut IrProgram) -> (changed: bool)
    ensures
        same_program_header(*old(program), *final(program)),
        forall|f: int| 0 <= f < old(program).functions@.len() ==> (#[trigger] final(program).functions@[f]).blocks@
            == simplified_blocks(old(program).functions@[f],
                exists|j: int| 0 <= j <= f && function_hits(#[trigger] old(program).functions@[j])),
        changed == exists|f: int| 0 <= f < old(program).functions@.len()
            && function_hits(#[trigger] old(program).functions@[f]),
{
    let mut changed = false;
    let mut f: usize = 0;
    while f < program.functions.len()
        invariant
            f <= program.functions@.len(),
            program.functions@.len() == old(program).functions@.len(),
            program.globals == old(program).globals,
            program.structs == old(program).structs,
            program.module_init == old(program).module_init,
            forall|i: int| 0 <= i < f ==> same_function_header(old(program).functions@[i], #[trigger] program.functions@[i]),
            forall|i: int| 0 <= i < f ==> (#[trigger] program.functions@[i]).blocks@
                == simplified_blocks(old(program).functions@[i],
                    exists|j: int| 0 <= j <= i && function_hits(#[trigger] old(program).functions@[j])),
            forall|i: int| f <= i < program.functions@.len()
                ==> #[trigger] program.functions@[i] == old(program).functions@[i],
            changed == exists|j: int| 0 <= j < f && function_hits(#[trigger] old(program).functions@[j]),
        decreases program.functions@.len() - f,
    {
        let ghost of = program.functions@[f as int];
        let ghost changed_before = changed;
        let func = &mut program.functions[f];
        let m = collect_loop_redirects(func);
        if m.is_empty() {
            proof {
                assert(loop_redirects(of.blocks@).is_empty());
                assert(!function_hits(of));
                assert(program.functions@[f as int] == of);
                assert(program.functions@[f as int].blocks@ == simplified_blocks(of, changed_before));
                assert((exists|j: int| 0 <= j <= f && function_hits(#[trigger] old(program).functions@[j]))
                    == changed_before) by {
                    if changed_before {
                        let j = choose|j: int| 0 <= j < f && function_hits(#[trigger] old(program).functions@[j]);
                        assert(0 <= j <= f && function_hits(old(program).functions@[j]));
                    }
                }
            }
            f += 1;
            continue;
        }
        let ghost mm = m@;
        assert(!mm.is_empty());
        let mut hit = false;
        let mut k: usize = 0;
        while k < func.blocks.len()
            invariant
                k <= func.blocks@.len(),
                func.blocks@.len() == of.blocks@.len(),
                mm == m@,
                mm == loop_redirects(of.blocks@),
                same_function_header(of, *func),
                forall|j: int| 0 <= j < k ==> #[trigger] func.blocks@[j] == step_block(of.blocks@[j], mm),
                forall|j: int| k <= j < func.blocks@.len() ==> #[trigger] func.blocks@[j] == of.blocks@[j],
                hit == exists|j: int| 0 <= j < k && hits(#[trigger] of.blocks@[j].terminator, mm),
            decreases func.blocks@.len() - k,
        {
            let block = &mut func.blocks[k];
            let new_term = match &block.terminator {
                Terminator::Jump(target) => {
                    let (next, h) = step_target(&m, target.0);
                    if h {
                        Some(Terminator::Jump(BlockId(next)))
                    } else {
                        None
                    }
                },
                Terminator::Branch(branch) => {
                    let (then_next, h1) = step_target(&m, branch.then_block.0);
                    let (else_next, h2) = step_target(&m, branch.else_block.0);
                    if h1 || h2 {
                        Some(Terminator::Branch(BranchTerminator {
                            cond: copy_operand(&branch.cond),
                            then_block: BlockId(then_next),
                            else_block: BlockId(else_next),
                        }))
                    } else {
                        None
                    }
                },
                Terminator::Return(_) | Terminator::Panic { .. } | Terminator::Unreachable => None,
            };
            if let Some(t) = new_term {
                block.terminator = t;
                hit = true;
            }
            k += 1;
        }
        proof {
            assert(func.blocks@ =~= of.blocks@.map_values(|b: BasicBlock| step_block(b, mm)));
            if hit {
                let j = choose|j: int| 0 <= j < k && hits(#[trigger] of.blocks@[j].terminator, mm);
                assert(0 <= j < of.blocks@.len() && hits(of.blocks@[j].terminator, loop_redirects(of.blocks@)));
            }
            assert(function_hits(of) == hit);
        }
        changed = changed || hit;
        if changed {
            remove_unreachable_blocks(func);
        }
        assert(func.blocks@ == simplified_blocks(of, changed));
        proof {
            assert((exists|j: int| 0 <= j <= f && function_hits(#[trigger] old(program).functions@[j])) == changed) by {
                if changed_before {
                    let j = choose|j: int| 0 <= j < f && function_hits(#[trigger] old(program).functions@[j]);
                    assert(0 <= j <= f && function_hits(old(program).functions@[j]));
                }
                if hit {
                    assert(function_hits(old(program).functions@[f as int]));
                }
            }
        }
        f += 1;
    }
    changed
}

} // verus!
