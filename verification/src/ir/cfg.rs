//! Control-flow facts: block lookup, successors, reachability.

use vstd::prelude::*;
use vstd::hash_set::HashSetWithView;

use crate::ir::{BasicBlock, BlockId, IrFunction, Terminator};

verus! {

broadcast use vstd::std_specs::hash::group_hash_axioms;

/// The position of the first block of `blocks` with id `id`, or -1.
pub open spec fn find_block(blocks: Seq<BasicBlock>, id: usize) -> int
    decreases blocks.len(),
{
    if blocks.len() == 0 {
        -1
    } else if blocks[0].id.0 == id {
        0
    } else {
        let r = find_block(blocks.drop_first(), id);
        if r < 0 { -1 } else { r + 1 }
    }
}

pub proof fn lemma_find_block(blocks: Seq<BasicBlock>, id: usize)
    ensures
        -1 <= find_block(blocks, id) < blocks.len(),
        find_block(blocks, id) >= 0 ==> blocks[find_block(blocks, id)].id.0 == id
            && forall|j: int| 0 <= j < find_block(blocks, id) ==> blocks[j].id.0 != id,
        find_block(blocks, id) < 0 ==> forall|j: int| 0 <= j < blocks.len() ==> blocks[j].id.0 != id,
    decreases blocks.len(),
{
    if blocks.len() > 0 && blocks[0].id.0 != id {
        lemma_find_block(blocks.drop_first(), id);
        assert forall|j: int| 1 <= j < blocks.len() implies blocks[j] == blocks.drop_first()[j - 1] by {}
    }
}

/// Returns the position of the first block with id `id`.
pub fn position_of_block(blocks: &Vec<BasicBlock>, id: BlockId) -> (r: Option<usize>)
    ensures
        match r {
            Some(i) => find_block(blocks@, id.0) == i as int,
            None => find_block(blocks@, id.0) < 0,
        },
{
    proof {
        lemma_find_block(blocks@, id.0);
    }
    let mut i: usize = 0;
    while i < blocks.len()
        invariant
            i <= blocks@.len(),
            forall|j: int| 0 <= j < i ==> blocks@[j].id.0 != id.0,
            -1 <= find_block(blocks@, id.0) < blocks@.len(),
            find_block(blocks@, id.0) >= 0 ==> blocks@[find_block(blocks@, id.0)].id.0 == id.0
                && forall|j: int| 0 <= j < find_block(blocks@, id.0) ==> blocks@[j].id.0 != id.0,
            find_block(blocks@, id.0) < 0 ==> forall|j: int| 0 <= j < blocks@.len() ==> blocks@[j].id.0 != id.0,
        decreases blocks@.len() - i,
    {
        if blocks[i].id == id {
            return Some(i);
        }
        i += 1;
    }
    None
}

/// The block targets of a terminator, in order.
pub open spec fn terminator_targets(term: Terminator) -> Seq<usize> {
    match term {
        Terminator::Jump(t) => seq![t.0],
        Terminator::Branch(b) => seq![b.then_block.0, b.else_block.0],
        _ => seq![],
    }
}

/// The successors of block id `id` in `blocks`: the targets of the first block with that id.
pub open spec fn successors(blocks: Seq<BasicBlock>, id: usize) -> Seq<usize> {
    let i = find_block(blocks, id);
    if i < 0 { seq![] } else { terminator_targets(blocks[i].terminator) }
}

/// `path` is a walk through `blocks` that starts at `entry`.
pub open spec fn is_walk(blocks: Seq<BasicBlock>, entry: usize, path: Seq<usize>) -> bool {
    &&& path.len() > 0
    &&& path[0] == entry
    &&& forall|i: int| 0 <= i < path.len() - 1 ==> successors(blocks, #[trigger] path[i]).contains(path[i + 1])
}

/// Block id `id` is reached from `entry` by following terminators.
pub open spec fn reachable(blocks: Seq<BasicBlock>, entry: usize, id: usize) -> bool {
    exists|path: Seq<usize>| is_walk(blocks, entry, path) && path.last() == id
}

proof fn lemma_walk_extend(blocks: Seq<BasicBlock>, entry: usize, path: Seq<usize>, next: usize)
    requires
        is_walk(blocks, entry, path),
        successors(blocks, path.last()).contains(next),
    ensures
        is_walk(blocks, entry, path.push(next)),
{
    let p = path.push(next);
    assert forall|i: int| 0 <= i < p.len() - 1 implies successors(blocks, #[trigger] p[i]).contains(p[i + 1]) by {
        if i < path.len() - 1 {
            assert(p[i] == path[i] && p[i + 1] == path[i + 1]);
        } else {
            assert(p[i] == path.last());
        }
    }
}

proof fn lemma_closed_contains_walks(blocks: Seq<BasicBlock>, entry: usize, seen: Set<usize>, path: Seq<usize>)
    requires
        seen.contains(entry),
        forall|x: usize, y: usize| seen.contains(x) && successors(blocks, x).contains(y) ==> seen.contains(y),
        is_walk(blocks, entry, path),
    ensures
        seen.contains(path.last()),
    decreases path.len(),
{
    if path.len() > 1 {
        let prefix = path.drop_last();
        assert(is_walk(blocks, entry, prefix)) by {
            assert forall|i: int| 0 <= i < prefix.len() - 1 implies successors(blocks, #[trigger] prefix[i]).contains(prefix[i + 1]) by {
                assert(prefix[i] == path[i] && prefix[i + 1] == path[i + 1]);
            }
        }
        lemma_closed_contains_walks(blocks, entry, seen, prefix);
        assert(successors(blocks, path[path.len() - 2]).contains(path[path.len() - 1]));
    }
}

/// Every block id that some terminator of `blocks` targets.
pub open spec fn target_ids(blocks: Seq<BasicBlock>) -> Set<usize>
    decreases blocks.len(),
{
    if blocks.len() == 0 {
        Set::empty()
    } else {
        target_ids(blocks.drop_last()).union(terminator_targets(blocks.last().terminator).to_set())
    }
}

proof fn lemma_target_ids(blocks: Seq<BasicBlock>)
    ensures
        target_ids(blocks).finite(),
        forall|i: int, t: usize| 0 <= i < blocks.len() && terminator_targets(blocks[i].terminator).contains(t)
            ==> target_ids(blocks).contains(t),
    decreases blocks.len(),
{
    if blocks.len() > 0 {
        lemma_target_ids(blocks.drop_last());
        assert forall|i: int, t: usize| 0 <= i < blocks.len() && terminator_targets(blocks[i].terminator).contains(t)
            implies target_ids(blocks).contains(t) by {
            if i < blocks.len() - 1 {
                assert(blocks.drop_last()[i] == blocks[i]);
            } else {
                assert(terminator_targets(blocks.last().terminator).to_set().contains(t));
            }
        }
    }
}

proof fn lemma_successors_in_targets(blocks: Seq<BasicBlock>, id: usize, t: usize)
    requires
        successors(blocks, id).contains(t),
    ensures
        target_ids(blocks).contains(t),
{
    lemma_find_block(blocks, id);
    lemma_target_ids(blocks);
}

fn push_targets(term: &Terminator, work: &mut Vec<usize>)
    ensures
        final(work)@ == old(work)@ + terminator_targets(*term),
{
    match term {
        Terminator::Jump(target) => work.push(target.0),
        Terminator::Branch(branch) => {
            work.push(branch.then_block.0);
            work.push(branch.else_block.0);
        },
        Terminator::Return(_) | Terminator::Panic { .. } | Terminator::Unreachable => {},
    }
    proof {
        assert(work@ =~= old(work)@ + terminator_targets(*term));
    }
}

proof fn lemma_pop_keeps(w0: Seq<usize>, work: Seq<usize>, id: usize)
    requires
        w0 == work.push(id),
    ensures
        forall|y: usize| w0.contains(y) && y != id ==> work.contains(y),
        forall|i: int| 0 <= i < work.len() ==> work[i] == w0[i],
{
    assert forall|y: usize| w0.contains(y) && y != id implies work.contains(y) by {
        let k = choose|k: int| 0 <= k < w0.len() && w0[k] == y;
        assert(work[k] == y);
    }
}

proof fn lemma_append_keeps(w1: Seq<usize>, ts: Seq<usize>)
    ensures
        forall|y: usize| ts.contains(y) ==> (w1 + ts).contains(y),
        forall|y: usize| w1.contains(y) ==> (w1 + ts).contains(y),
{
    assert forall|y: usize| ts.contains(y) implies (w1 + ts).contains(y) by {
        let k = choose|k: int| 0 <= k < ts.len() && ts[k] == y;
        assert((w1 + ts)[w1.len() + k] == y);
    }
    assert forall|y: usize| w1.contains(y) implies (w1 + ts).contains(y) by {
        let k = choose|k: int| 0 <= k < w1.len() && w1[k] == y;
        assert((w1 + ts)[k] == y);
    }
}

pub proof fn lemma_successor_reachable(blocks: Seq<BasicBlock>, entry: usize, id: usize, t: usize)
    requires
        reachable(blocks, entry, id),
        successors(blocks, id).contains(t),
    ensures
        reachable(blocks, entry, t),
        target_ids(blocks).contains(t),
{
    lemma_successors_in_targets(blocks, id, t);
    let path = choose|path: Seq<usize>| is_walk(blocks, entry, path) && path.last() == id;
    lemma_walk_extend(blocks, entry, path, t);
    assert(path.push(t).last() == t);
}

/// The ids of the blocks reached from the entry of `func` by following
/// terminators (a target with no block is reached but leads nowhere).
#[verifier::rlimit(40)]
pub fn reachable_block_ids(func: &IrFunction) -> (r: HashSetWithView<usize>)
    ensures
        forall|id: usize| r@.contains(id) <==> reachable(func.blocks@, func.entry.0, id),
{
    let ghost blocks = func.blocks@;
    let ghost entry = func.entry.0;
    let ghost cands = target_ids(blocks).insert(entry);
    proof {
        lemma_target_ids(blocks);
    }
    let mut reachable_ids: HashSetWithView<usize> = HashSetWithView::new();
    let mut work: Vec<usize> = Vec::new();
    work.push(func.entry.0);
    proof {
        let p = seq![entry];
        assert(is_walk(blocks, entry, p) && p.last() == entry);
        assert(work@[0] == entry);
    }
    loop
        invariant
            blocks == func.blocks@,
            entry == func.entry.0,
            reachable_ids@.contains(entry) || work@.contains(entry),
            forall|x: usize| #[trigger] reachable_ids@.contains(x) ==> reachable(blocks, entry, x),
            forall|i: int| 0 <= i < work@.len() ==> reachable(blocks, entry, #[trigger] work@[i]),
            forall|x: usize, y: usize| reachable_ids@.contains(x) && successors(blocks, x).contains(y)
                ==> reachable_ids@.contains(y) || work@.contains(y),
            cands.finite(),
            cands == target_ids(blocks).insert(entry),
            reachable_ids@.subset_of(cands),
            forall|i: int| 0 <= i < work@.len() ==> cands.contains(#[trigger] work@[i]),
        ensures
            reachable_ids@.contains(entry),
            forall|x: usize| #[trigger] reachable_ids@.contains(x) ==> reachable(blocks, entry, x),
            forall|x: usize, y: usize| reachable_ids@.contains(x) && successors(blocks, x).contains(y)
                ==> reachable_ids@.contains(y),
        decreases cands.difference(reachable_ids@).len(), work@.len(),
    {
        let ghost w0 = work@;
        let ghost r0 = reachable_ids@;
        let id = match work.pop() {
            Some(id) => id,
            None => {
                assert(work@.len() == 0);
                break;
            },
        };
        proof {
            assert(w0 =~= work@.push(id));
            lemma_pop_keeps(w0, work@, id);
        }
        if reachable_ids.contains(&id) {
            continue;
        }
        reachable_ids.insert(id);
        proof {
            assert(cands.difference(reachable_ids@) =~= cands.difference(r0).remove(id));
            assert(cands.difference(r0).contains(id));
        }
        let ghost w1 = work@;
        match position_of_block(&func.blocks, BlockId(id)) {
            Some(i) => {
                proof {
                    lemma_find_block(blocks, id);
                }
                push_targets(&func.blocks[i].terminator, &mut work);
                proof {
                    assert(successors(blocks, id) == terminator_targets(blocks[i as int].terminator));
                    lemma_append_keeps(w1, successors(blocks, id));
                    assert forall|j: int| w1.len() <= j < work@.len() implies
                        reachable(blocks, entry, #[trigger] work@[j]) && cands.contains(work@[j]) by {
                        let t = work@[j];
                        assert(successors(blocks, id)[j - w1.len()] == t);
                        lemma_successor_reachable(blocks, entry, id, t);
                    }
                }
            },
            None => {
                proof {
                    assert(successors(blocks, id) =~= Seq::<usize>::empty());
                }
            },
        }
    }
    proof {
        assert forall|id: usize| reachable(blocks, entry, id) implies reachable_ids@.contains(id) by {
            let path = choose|path: Seq<usize>| is_walk(blocks, entry, path) && path.last() == id;
            lemma_closed_contains_walks(blocks, entry, reachable_ids@, path);
        }
    }
    reachable_ids
}

} // verus!
