//! Jump threading through empty blocks, and removal of unreachable blocks.

use vstd::prelude::*;
use vstd::hash_map::HashMapWithView;
use vstd::hash_set::HashSetWithView;

use crate::ir::cfg::{find_block, is_walk, lemma_find_block, lemma_successor_reachable, reachable, reachable_block_ids, successors, terminator_targets};
use crate::ir::opt::{same_block_code, same_blocks_code, same_code, same_function_header, same_program_header};
use crate::ir::{BasicBlock, BlockId, BranchTerminator, Instr, IrFunction, IrProgram, Operand, Terminator};

verus! {

broadcast use vstd::std_specs::hash::group_hash_axioms;

/// A block that does nothing but jump: not the entry, no instructions, a `Jump` terminator.
pub open spec fn is_jump_only(block: BasicBlock, entry: usize) -> bool {
    block.id.0 != entry && block.instrs@.len() == 0 && block.terminator is Jump
}

/// The target of a `Jump`.
pub open spec fn jump_target(term: Terminator) -> usize {
    match term {
        Terminator::Jump(t) => t.0,
        _ => 0,
    }
}

/// Each jump-only block mapped to its target (a later block with the same id wins).
pub open spec fn initial_redirects(blocks: Seq<BasicBlock>, entry: usize) -> Map<usize, usize>
    decreases blocks.len(),
{
    if blocks.len() == 0 {
        Map::empty()
    } else {
        let m = initial_redirects(blocks.drop_last(), entry);
        let b = blocks.last();
        if is_jump_only(b, entry) { m.insert(b.id.0, jump_target(b.terminator)) } else { m }
    }
}

/// The ids of the jump-only blocks, each once, in the order of their first block.
pub open spec fn redirect_keys(blocks: Seq<BasicBlock>, entry: usize) -> Seq<usize>
    decreases blocks.len(),
{
    if blocks.len() == 0 {
        seq![]
    } else {
        let ks = redirect_keys(blocks.drop_last(), entry);
        let b = blocks.last();
        if is_jump_only(b, entry) && !initial_redirects(blocks.drop_last(), entry).contains_key(b.id.0) {
            ks.push(b.id.0)
        } else {
            ks
        }
    }
}

/// Following `m` from `cur`, stopping at an id outside `m` or at the first id
/// seen twice.
pub open spec fn follow(m: Map<usize, usize>, seen: Set<usize>, cur: usize) -> usize
    decreases m.dom().difference(seen).len(),
    when m.dom().finite()
{
    if m.contains_key(cur) && !seen.contains(cur) {
        proof {
            assert(m.dom().difference(seen.insert(cur)) =~= m.dom().difference(seen).remove(cur));
        }
        follow(m, seen.insert(cur), m[cur])
    } else {
        cur
    }
}

/// The redirects after resolving the first `n` keys in turn, each against the
/// map as the earlier resolutions left it.
pub open spec fn resolved_redirects(m0: Map<usize, usize>, keys: Seq<usize>, n: int) -> Map<usize, usize>
    decreases n,
{
    if n <= 0 {
        m0
    } else {
        let m = resolved_redirects(m0, keys, n - 1);
        m.insert(keys[n - 1], follow(m, Set::empty(), keys[n - 1]))
    }
}

/// The redirect map of a function: every jump-only block mapped to where its chain of jumps ends.
pub open spec fn redirects(blocks: Seq<BasicBlock>, entry: usize) -> Map<usize, usize> {
    let keys = redirect_keys(blocks, entry);
    resolved_redirects(initial_redirects(blocks, entry), keys, keys.len() as int)
}

proof fn lemma_initial_finite(blocks: Seq<BasicBlock>, entry: usize)
    ensures
        initial_redirects(blocks, entry).dom().finite(),
        forall|k: usize| redirect_keys(blocks, entry).contains(k) <==> initial_redirects(blocks, entry).contains_key(k),
    decreases blocks.len(),
{
    if blocks.len() > 0 {
        let rest = blocks.drop_last();
        lemma_initial_finite(rest, entry);
        let b = blocks.last();
        let ks = redirect_keys(rest, entry);
        assert forall|k: usize| redirect_keys(blocks, entry).contains(k) <==> initial_redirects(blocks, entry).contains_key(k) by {
            if is_jump_only(b, entry) && !initial_redirects(rest, entry).contains_key(b.id.0) {
                assert(ks.push(b.id.0).contains(k) <==> (ks.contains(k) || k == b.id.0)) by {
                    if k == b.id.0 {
                        assert(ks.push(b.id.0)[ks.len() as int] == k);
                    }
                    if ks.push(b.id.0).contains(k) && k != b.id.0 {
                        let i = choose|i: int| 0 <= i < ks.len() + 1 && ks.push(b.id.0)[i] == k;
                        assert(ks[i] == k);
                    }
                    if ks.contains(k) {
                        let i = choose|i: int| 0 <= i < ks.len() && ks[i] == k;
                        assert(ks.push(b.id.0)[i] == k);
                    }
                }
            }
        }
    }
}

proof fn lemma_resolved_finite(m0: Map<usize, usize>, keys: Seq<usize>, n: int)
    requires
        m0.dom().finite(),
        0 <= n <= keys.len(),
        forall|k: usize| keys.contains(k) ==> m0.contains_key(k),
    ensures
        resolved_redirects(m0, keys, n).dom().finite(),
        resolved_redirects(m0, keys, n).dom() == m0.dom(),
    decreases n,
{
    if n > 0 {
        lemma_resolved_finite(m0, keys, n - 1);
        let m = resolved_redirects(m0, keys, n - 1);
        assert(keys.contains(keys[n - 1]));
        assert(m.insert(keys[n - 1], follow(m, Set::empty(), keys[n - 1])).dom() =~= m.dom());
    }
}

/// Follows the redirects from `start`.
fn resolve_redirect(start: usize, redirect: &HashMapWithView<usize, usize>) -> (r: usize)
    requires
        redirect@.dom().finite(),
    ensures
        r == follow(redirect@, Set::empty(), start),
{
    let mut seen: HashSetWithView<usize> = HashSetWithView::new();
    let mut current = start;
    loop
        invariant
            redirect@.dom().finite(),
            follow(redirect@, seen@, current) == follow(redirect@, Set::empty(), start),
        ensures
            current == follow(redirect@, Set::empty(), start),
        decreases redirect@.dom().difference(seen@).len(),
    {
        let next = match redirect.get(&current) {
            Some(next) => *next,
            None => break,
        };
        let ghost s0 = seen@;
        if !seen.insert(current) {
            break;
        }
        proof {
            assert(redirect@.dom().difference(seen@) =~= redirect@.dom().difference(s0).remove(current));
            assert(redirect@.dom().difference(s0).contains(current));
        }
        current = next;
    }
    current
}

/// The redirect map of a function: each jump-only block to where its jumps end.
fn collect_jump_only_redirects(func: &IrFunction) -> (r: HashMapWithView<usize, usize>)
    ensures
        r@ == redirects(func.blocks@, func.entry.0),
        r@.dom().finite(),
{
    let ghost blocks = func.blocks@;
    let ghost entry = func.entry.0;
    let mut redirect: HashMapWithView<usize, usize> = HashMapWithView::new();
    let mut keys: Vec<usize> = Vec::new();
    let mut k: usize = 0;
    while k < func.blocks.len()
        invariant
            k <= blocks.len(),
            blocks == func.blocks@,
            entry == func.entry.0,
            redirect@ == initial_redirects(blocks.take(k as int), entry),
            keys@ == redirect_keys(blocks.take(k as int), entry),
        decreases blocks.len() - k,
    {
        proof {
            assert(blocks.take(k + 1).drop_last() =~= blocks.take(k as int));
        }
        let block = &func.blocks[k];
        if block.id.0 != func.entry.0 && block.instrs.len() == 0 {
            if let Terminator::Jump(target) = &block.terminator {
                if !redirect.contains_key(&block.id.0) {
                    keys.push(block.id.0);
                }
                redirect.insert(block.id.0, target.0);
            }
        }
        k += 1;
    }
    proof {
        assert(blocks.take(k as int) =~= blocks);
        lemma_initial_finite(blocks, entry);
    }
    let ghost m0 = redirect@;
    let mut i: usize = 0;
    while i < keys.len()
        invariant
            i <= keys@.len(),
            m0.dom().finite(),
            forall|x: usize| keys@.contains(x) ==> m0.contains_key(x),
            redirect@ == resolved_redirects(m0, keys@, i as int),
            redirect@.dom().finite(),
        decreases keys@.len() - i,
    {
        let key = keys[i];
        let target = resolve_redirect(key, &redirect);
        redirect.insert(key, target);
        i += 1;
        proof {
            lemma_resolved_finite(m0, keys@, i as int);
        }
    }
    redirect
}

/// A terminator with its targets redirected by `m`.
pub open spec fn retarget(term: Terminator, m: Map<usize, usize>) -> Terminator {
    match term {
        Terminator::Jump(t) => Terminator::Jump(BlockId(follow(m, Set::empty(), t.0))),
        Terminator::Branch(b) => Terminator::Branch(BranchTerminator {
            cond: b.cond,
            then_block: BlockId(follow(m, Set::empty(), b.then_block.0)),
            else_block: BlockId(follow(m, Set::empty(), b.else_block.0)),
        }),
        _ => term,
    }
}

/// A block with its terminator redirected by `m`.
pub open spec fn retarget_block(block: BasicBlock, m: Map<usize, usize>) -> BasicBlock {
    BasicBlock { id: block.id, name: block.name, instrs: block.instrs, terminator: retarget(block.terminator, m) }
}

/// Redirecting by `m` moves some target of `term`.
pub open spec fn retargets(term: Terminator, m: Map<usize, usize>) -> bool {
    retarget(term, m) != term
}

/// Redirects every jump and branch target of `func` through `redirect`;
/// returns whether some target moved.
fn rewrite_targets(func: &mut IrFunction, redirect: &HashMapWithView<usize, usize>) -> (changed: bool)
    requires
        redirect@.dom().finite(),
    ensures
        same_function_header(*old(func), *final(func)),
        final(func).blocks@ == old(func).blocks@.map_values(|b: BasicBlock| retarget_block(b, redirect@)),
        changed == exists|k: int| 0 <= k < old(func).blocks@.len()
            && retargets(#[trigger] old(func).blocks@[k].terminator, redirect@),
{
    let ghost m = redirect@;
    let mut changed = false;
    let mut k: usize = 0;
    while k < func.blocks.len()
        invariant
            k <= func.blocks@.len(),
            func.blocks@.len() == old(func).blocks@.len(),
            m == redirect@,
            m.dom().finite(),
            same_function_header(*old(func), *func),
            forall|j: int| 0 <= j < k ==> #[trigger] func.blocks@[j] == retarget_block(old(func).blocks@[j], m),
            forall|j: int| k <= j < func.blocks@.len() ==> #[trigger] func.blocks@[j] == old(func).blocks@[j],
            changed == exists|j: int| 0 <= j < k && retargets(#[trigger] old(func).blocks@[j].terminator, m),
        decreases func.blocks@.len() - k,
    {
        let block = &mut func.blocks[k];
        let new_term = match &block.terminator {
            Terminator::Jump(target) => {
                let final_target = resolve_redirect(target.0, redirect);
                if final_target != target.0 {
                    Some(Terminator::Jump(BlockId(final_target)))
                } else {
                    None
                }
            },
            Terminator::Branch(branch) => {
                let then_target = resolve_redirect(branch.then_block.0, redirect);
                let else_target = resolve_redirect(branch.else_block.0, redirect);
                if then_target != branch.then_block.0 || else_target != branch.else_block.0 {
                    Some(Terminator::Branch(BranchTerminator {
                        cond: crate::ir::copy_operand(&branch.cond),
                        then_block: BlockId(then_target),
                        else_block: BlockId(else_target),
                    }))
                } else {
                    None
                }
            },
            Terminator::Return(_) | Terminator::Panic { .. } | Terminator::Unreachable => None,
        };
        if let Some(t) = new_term {
            block.terminator = t;
            changed = true;
        }
        k += 1;
    }
    proof {
        assert(func.blocks@ =~= old(func).blocks@.map_values(|b: BasicBlock| retarget_block(b, m)));
    }
    changed
}

/// The blocks of `blocks` whose id is in `ids`, in order.
pub open spec fn keep_blocks(blocks: Seq<BasicBlock>, ids: Set<usize>) -> Seq<BasicBlock>
    decreases blocks.len(),
{
    if blocks.len() == 0 {
        seq![]
    } else {
        let rest = keep_blocks(blocks.drop_first(), ids);
        if ids.contains(blocks[0].id.0) { seq![blocks[0]] + rest } else { rest }
    }
}

proof fn lemma_keep_blocks_len(blocks: Seq<BasicBlock>, ids: Set<usize>)
    ensures
        keep_blocks(blocks, ids).len() <= blocks.len(),
        keep_blocks(blocks, ids).len() == blocks.len()
            ==> forall|j: int| 0 <= j < blocks.len() ==> ids.contains(#[trigger] blocks[j].id.0),
    decreases blocks.len(),
{
    if blocks.len() > 0 {
        lemma_keep_blocks_len(blocks.drop_first(), ids);
        assert forall|j: int| 1 <= j < blocks.len() implies blocks[j] == blocks.drop_first()[j - 1] by {}
    }
}

/// The ids of the blocks reached from the entry.
pub open spec fn reachable_ids(blocks: Seq<BasicBlock>, entry: usize) -> Set<usize> {
    Set::new(|id: usize| reachable(blocks, entry, id))
}

/// Keeps only the blocks of `func` reached from its entry; returns whether any was removed.
pub fn remove_unreachable_blocks(func: &mut IrFunction) -> (changed: bool)
    ensures
        same_function_header(*old(func), *final(func)),
        final(func).blocks@ == keep_blocks(old(func).blocks@, reachable_ids(old(func).blocks@, old(func).entry.0)),
        changed == (final(func).blocks@.len() != old(func).blocks@.len()),
{
    let reachable_set = reachable_block_ids(func);
    let ghost ids = reachable_ids(func.blocks@, func.entry.0);
    assert(reachable_set@ =~= ids);
    let before = func.blocks.len();
    let mut remaining: Vec<BasicBlock> = Vec::new();
    std::mem::swap(&mut remaining, &mut func.blocks);
    let ghost orig = remaining@;
    let mut kept: Vec<BasicBlock> = Vec::new();
    while remaining.len() > 0
        invariant
            keep_blocks(orig, ids) == kept@ + keep_blocks(remaining@, ids),
            reachable_set@ == ids,
            same_function_header(*old(func), *func),
        decreases remaining@.len(),
    {
        let ghost r0 = remaining@;
        let block = remaining.remove(0);
        assert(r0.drop_first() =~= remaining@);
        let ghost k0 = kept@;
        if reachable_set.contains(&block.id.0) {
            kept.push(block);
            assert(kept@ + keep_blocks(remaining@, ids) =~= k0 + (seq![block] + keep_blocks(remaining@, ids)));
        }
    }
    assert(kept@ =~= keep_blocks(orig, ids));
    func.blocks = kept;
    before != func.blocks.len()
}

/// Simplifies the control flow of one function: threads jumps through empty
/// jump-only blocks, then drops the blocks no longer reached. Returns whether anything changed.
pub fn run_function(func: &mut IrFunction) -> (changed: bool)
    ensures
        same_function_header(*old(func), *final(func)),
        ({
            let m = redirects(old(func).blocks@, old(func).entry.0);
            let retargeted = old(func).blocks@.map_values(|b: BasicBlock| retarget_block(b, m));
            if m.dom().len() == 0 {
                &&& final(func).blocks@ == old(func).blocks@
                &&& !changed
            } else {
                &&& final(func).blocks@ == keep_blocks(retargeted, reachable_ids(retargeted, old(func).entry.0))
                &&& changed == ((exists|k: int| 0 <= k < old(func).blocks@.len()
                        && retargets(#[trigger] old(func).blocks@[k].terminator, m))
                    || final(func).blocks@.len() != old(func).blocks@.len())
            }
        }),
{
    let redirect = collect_jump_only_redirects(func);
    if redirect.is_empty() {
        return false;
    }
    let c1 = rewrite_targets(func, &redirect);
    let c2 = remove_unreachable_blocks(func);
    c1 || c2
}

/// The program `new` is what this pass makes of `old`.
pub open spec fn run_to(old: IrProgram, new: IrProgram) -> bool {
    &&& same_program_header(old, new)
    &&& forall|f: int| 0 <= f < old.functions@.len() ==> {
        let of = old.functions@[f];
        let nf = #[trigger] new.functions@[f];
        let m = redirects(of.blocks@, of.entry.0);
        let retargeted = of.blocks@.map_values(|b: BasicBlock| retarget_block(b, m));
        if m.dom().len() == 0 {
            nf.blocks@ == of.blocks@
        } else {
            nf.blocks@ == keep_blocks(retargeted, reachable_ids(retargeted, of.entry.0))
        }
    }
}

/// The pass, taking `old` to `new`, reports a change.
pub open spec fn run_changes(old: IrProgram, new: IrProgram) -> bool {
    exists|f: int| 0 <= f < old.functions@.len() && {
        let of = #[trigger] old.functions@[f];
        let m = redirects(of.blocks@, of.entry.0);
        m.dom().len() != 0 && ((exists|k: int| 0 <= k < of.blocks@.len()
            && retargets(#[trigger] of.blocks@[k].terminator, m))
            || new.functions@[f].blocks@.len() != of.blocks@.len())
    }
}

/// Control-flow simplification: in each function that has empty jump-only
/// blocks (not the entry), redirects every jump and branch to where the chain
/// of such blocks ends, then removes the blocks no longer reached from the
/// entry. Returns whether anything changed.
pub fn run(program: &mut IrProgram) -> (changed: bool)
    ensures
        same_program_header(*old(program), *final(program)),
        forall|f: int| 0 <= f < old(program).functions@.len() ==> {
            let of = old(program).functions@[f];
            let nf = #[trigger] final(program).functions@[f];
            let m = redirects(of.blocks@, of.entry.0);
            let retargeted = of.blocks@.map_values(|b: BasicBlock| retarget_block(b, m));
            if m.dom().len() == 0 {
                nf.blocks@ == of.blocks@
            } else {
                nf.blocks@ == keep_blocks(retargeted, reachable_ids(retargeted, of.entry.0))
            }
        },
        changed == exists|f: int| 0 <= f < old(program).functions@.len() && {
            let of = #[trigger] old(program).functions@[f];
            let m = redirects(of.blocks@, of.entry.0);
            m.dom().len() != 0 && ((exists|k: int| 0 <= k < of.blocks@.len()
                && retargets(#[trigger] of.blocks@[k].terminator, m))
                || final(program).functions@[f].blocks@.len() != of.blocks@.len())
        },
{
    let mut changed = false;
    let mut f: usize = 0;
    while f < program.functions.len()
        invariant
            f <= program.functions@.len(),
            program.functions@.len() == old(program).functions@.len(),
            program.globals == old(program).globals,
            program.structs == old(program).structs,
            program.module_init == old(program).module_init,
            forall|i: int| 0 <= i < f ==> {
                let of = old(program).functions@[i];
                let nf = #[trigger] program.functions@[i];
                let m = redirects(of.blocks@, of.entry.0);
                let retargeted = of.blocks@.map_values(|b: BasicBlock| retarget_block(b, m));
                &&& same_function_header(of, nf)
                &&& if m.dom().len() == 0 {
                    nf.blocks@ == of.blocks@
                } else {
                    nf.blocks@ == keep_blocks(retargeted, reachable_ids(retargeted, of.entry.0))
                }
            },
            forall|i: int| f <= i < program.functions@.len()
                ==> #[trigger] program.functions@[i] == old(program).functions@[i],
            changed == exists|i: int| 0 <= i < f && {
                let of = #[trigger] old(program).functions@[i];
                let m = redirects(of.blocks@, of.entry.0);
                m.dom().len() != 0 && ((exists|k: int| 0 <= k < of.blocks@.len()
                    && retargets(#[trigger] of.blocks@[k].terminator, m))
                    || program.functions@[i].blocks@.len() != of.blocks@.len())
            },
        decreases program.functions@.len() - f,
    {
        let c = run_function(&mut program.functions[f]);
        changed = changed || c;
        f += 1;
    }
    changed
}


/// Some block of `blocks` has id `id`.
pub open spec fn has_block(blocks: Seq<BasicBlock>, id: usize) -> bool {
    find_block(blocks, id) >= 0
}

/// The ids of the blocks of `blocks`.
pub open spec fn block_id_set(blocks: Seq<BasicBlock>) -> Set<usize> {
    Set::new(|id: usize| has_block(blocks, id))
}

/// The entry block exists and every jump and branch target names a block.
pub open spec fn well_targeted(blocks: Seq<BasicBlock>, entry: usize) -> bool {
    &&& has_block(blocks, entry)
    &&& forall|k: int, t: usize| 0 <= k < blocks.len() && #[trigger] terminator_targets(blocks[k].terminator).contains(t)
        ==> has_block(blocks, t)
}

/// No two blocks of `blocks` have the same id.
pub open spec fn distinct_block_ids(blocks: Seq<BasicBlock>) -> bool {
    forall|i: int, j: int| 0 <= i < j < blocks.len() ==> blocks[i].id != blocks[j].id
}

proof fn lemma_follow_stays_in(m: Map<usize, usize>, seen: Set<usize>, cur: usize, valid: Set<usize>)
    requires
        m.dom().finite(),
        valid.contains(cur),
        forall|k: usize| m.contains_key(k) ==> valid.contains(#[trigger] m[k]),
    ensures
        valid.contains(follow(m, seen, cur)),
    decreases m.dom().difference(seen).len(),
{
    if m.contains_key(cur) && !seen.contains(cur) {
        assert(m.dom().difference(seen.insert(cur)) =~= m.dom().difference(seen).remove(cur));
        assert(m.dom().difference(seen).contains(cur));
        lemma_follow_stays_in(m, seen.insert(cur), m[cur], valid);
    }
}

proof fn lemma_initial_in(blocks: Seq<BasicBlock>, entry: usize, valid: Set<usize>)
    requires
        forall|k: int| 0 <= k < blocks.len() ==> valid.contains(#[trigger] blocks[k].id.0),
        forall|k: int, t: usize| 0 <= k < blocks.len() && #[trigger] terminator_targets(blocks[k].terminator).contains(t)
            ==> valid.contains(t),
    ensures
        forall|key: usize| #[trigger] initial_redirects(blocks, entry).contains_key(key)
            ==> valid.contains(key) && valid.contains(initial_redirects(blocks, entry)[key]),
    decreases blocks.len(),
{
    if blocks.len() > 0 {
        let rest = blocks.drop_last();
        assert forall|k: int, t: usize| 0 <= k < rest.len() && #[trigger] terminator_targets(rest[k].terminator).contains(t)
            implies valid.contains(t) by {
            assert(rest[k] == blocks[k]);
        }
        assert forall|k: int| 0 <= k < rest.len() implies valid.contains(#[trigger] rest[k].id.0) by {
            assert(rest[k] == blocks[k]);
        }
        lemma_initial_in(rest, entry, valid);
        let b = blocks.last();
        let m = initial_redirects(rest, entry);
        assert(valid.contains(blocks[blocks.len() - 1].id.0));
        if is_jump_only(b, entry) {
            assert(terminator_targets(blocks[blocks.len() - 1].terminator)[0] == jump_target(b.terminator));
            assert(terminator_targets(blocks[blocks.len() - 1].terminator).contains(jump_target(b.terminator)));
        }
        assert forall|key: usize| #[trigger] initial_redirects(blocks, entry).contains_key(key)
            implies valid.contains(key) && valid.contains(initial_redirects(blocks, entry)[key]) by {
            if !(is_jump_only(b, entry) && key == b.id.0) {
                assert(m.contains_key(key));
            }
        }
    }
}

proof fn lemma_resolved_in(m0: Map<usize, usize>, keys: Seq<usize>, n: int, valid: Set<usize>)
    requires
        m0.dom().finite(),
        0 <= n <= keys.len(),
        forall|k: usize| keys.contains(k) ==> m0.contains_key(k),
        forall|key: usize| #[trigger] m0.contains_key(key) ==> valid.contains(key) && valid.contains(m0[key]),
    ensures
        forall|key: usize| #[trigger] resolved_redirects(m0, keys, n).contains_key(key)
            ==> valid.contains(key) && valid.contains(resolved_redirects(m0, keys, n)[key]),
    decreases n,
{
    if n > 0 {
        lemma_resolved_in(m0, keys, n - 1, valid);
        lemma_resolved_finite(m0, keys, n - 1);
        let m = resolved_redirects(m0, keys, n - 1);
        assert(keys.contains(keys[n - 1]));
        assert(m0.contains_key(keys[n - 1]));
        assert forall|k: usize| m.contains_key(k) implies valid.contains(#[trigger] m[k]) by {}
        lemma_follow_stays_in(m, Set::empty(), keys[n - 1], valid);
    }
}

proof fn lemma_has_block_iff(blocks: Seq<BasicBlock>, id: usize)
    ensures
        has_block(blocks, id) <==> exists|j: int| 0 <= j < blocks.len() && #[trigger] blocks[j].id.0 == id,
{
    lemma_find_block(blocks, id);
    if has_block(blocks, id) {
        assert(blocks[find_block(blocks, id)].id.0 == id);
    }
}

proof fn lemma_kept_origin(blocks: Seq<BasicBlock>, ids: Set<usize>, k: int) -> (j: int)
    requires
        0 <= k < keep_blocks(blocks, ids).len(),
    ensures
        0 <= j < blocks.len(),
        keep_blocks(blocks, ids)[k] == blocks[j],
        ids.contains(blocks[j].id.0),
    decreases blocks.len(),
{
    let rest = blocks.drop_first();
    if ids.contains(blocks[0].id.0) {
        if k == 0 {
            0
        } else {
            let j = lemma_kept_origin(rest, ids, k - 1);
            assert(rest[j] == blocks[j + 1]);
            j + 1
        }
    } else {
        let j = lemma_kept_origin(rest, ids, k);
        assert(rest[j] == blocks[j + 1]);
        j + 1
    }
}

proof fn lemma_kept_position(blocks: Seq<BasicBlock>, ids: Set<usize>, j: int) -> (k: int)
    requires
        0 <= j < blocks.len(),
        ids.contains(blocks[j].id.0),
    ensures
        0 <= k < keep_blocks(blocks, ids).len(),
        keep_blocks(blocks, ids)[k] == blocks[j],
    decreases blocks.len(),
{
    let rest = blocks.drop_first();
    if j == 0 {
        0
    } else {
        assert(rest[j - 1] == blocks[j]);
        let k = lemma_kept_position(rest, ids, j - 1);
        if ids.contains(blocks[0].id.0) { k + 1 } else { k }
    }
}

proof fn lemma_function_keeps_targets(blocks: Seq<BasicBlock>, entry: usize)
    requires
        well_targeted(blocks, entry),
        distinct_block_ids(blocks),
        redirects(blocks, entry).dom().len() != 0,
    ensures
        ({
            let m = redirects(blocks, entry);
            let retargeted = blocks.map_values(|b: BasicBlock| retarget_block(b, m));
            well_targeted(keep_blocks(retargeted, reachable_ids(retargeted, entry)), entry)
        }),
{
    let m = redirects(blocks, entry);
    let r = blocks.map_values(|b: BasicBlock| retarget_block(b, m));
    let ids = reachable_ids(r, entry);
    let kept = keep_blocks(r, ids);
    let valid = block_id_set(blocks);
    let keys = redirect_keys(blocks, entry);
    let m0 = initial_redirects(blocks, entry);
    assert forall|k: int| 0 <= k < blocks.len() implies valid.contains(#[trigger] blocks[k].id.0) by {
        lemma_has_block_iff(blocks, blocks[k].id.0);
    }
    lemma_initial_in(blocks, entry, valid);
    lemma_initial_finite(blocks, entry);
    lemma_resolved_in(m0, keys, keys.len() as int, valid);
    lemma_resolved_finite(m0, keys, keys.len() as int);
    assert forall|k: usize| m.contains_key(k) implies valid.contains(#[trigger] m[k]) by {}
    // the retargeted blocks have the old ids, and targets that name blocks
    assert forall|id: usize| has_block(r, id) <==> has_block(blocks, id) by {
        lemma_has_block_iff(r, id);
        lemma_has_block_iff(blocks, id);
        if has_block(blocks, id) {
            let j = choose|j: int| 0 <= j < blocks.len() && #[trigger] blocks[j].id.0 == id;
            assert(r[j].id.0 == id);
        }
        if has_block(r, id) {
            let j = choose|j: int| 0 <= j < r.len() && #[trigger] r[j].id.0 == id;
            assert(blocks[j].id.0 == id);
        }
    }
    assert forall|k: int, t: usize| 0 <= k < r.len() && #[trigger] terminator_targets(r[k].terminator).contains(t)
        implies has_block(r, t) by {
        let old_ts = terminator_targets(blocks[k].terminator);
        let i = choose|i: int| 0 <= i < terminator_targets(r[k].terminator).len() && terminator_targets(r[k].terminator)[i] == t;
        assert(old_ts.contains(old_ts[i]));
        assert(valid.contains(old_ts[i]));
        lemma_follow_stays_in(m, Set::empty(), old_ts[i], valid);
    }
    // a kept block's targets are reached, so their blocks are kept
    assert(reachable(r, entry, entry)) by {
        let p = seq![entry];
        assert(p.last() == entry);
        assert(is_walk(r, entry, p));
    }
    assert(has_block(kept, entry)) by {
        lemma_has_block_iff(r, entry);
        lemma_has_block_iff(kept, entry);
        let j = choose|j: int| 0 <= j < r.len() && #[trigger] r[j].id.0 == entry;
        assert(ids.contains(r[j].id.0));
        let k = lemma_kept_position(r, ids, j);
        assert(kept[k].id.0 == entry);
    }
    assert forall|k: int, t: usize| 0 <= k < kept.len() && #[trigger] terminator_targets(kept[k].terminator).contains(t)
        implies has_block(kept, t) by {
        let j = lemma_kept_origin(r, ids, k);
        lemma_find_block(r, r[j].id.0);
        let fb = find_block(r, r[j].id.0);
        assert(fb == j) by {
            if fb < j {
                assert(blocks[fb].id != blocks[j].id);
            }
        }
        assert(successors(r, r[j].id.0).contains(t));
        lemma_successor_reachable(r, entry, r[j].id.0, t);
        assert(ids.contains(t));
        lemma_has_block_iff(r, t);
        lemma_has_block_iff(kept, t);
        let j2 = choose|j2: int| 0 <= j2 < r.len() && #[trigger] r[j2].id.0 == t;
        let k2 = lemma_kept_position(r, ids, j2);
        assert(kept[k2].id.0 == t);
    }
}

/// Control-flow simplification keeps functions well-targeted: where each
/// function's entry block exists, its block ids are unique and every jump
/// and branch target names one of its blocks, the same holds after the pass,
/// with the same entry.
pub proof fn lemma_run_keeps_targets_valid(old: IrProgram, new: IrProgram)
    requires
        run_to(old, new),
        forall|f: int| 0 <= f < old.functions@.len() ==> well_targeted((#[trigger] old.functions@[f]).blocks@, old.functions@[f].entry.0)
            && distinct_block_ids(old.functions@[f].blocks@),
    ensures
        new.functions@.len() == old.functions@.len(),
        forall|f: int| 0 <= f < new.functions@.len() ==> (#[trigger] new.functions@[f]).entry == old.functions@[f].entry
            && well_targeted(new.functions@[f].blocks@, new.functions@[f].entry.0),
{
    assert forall|f: int| 0 <= f < new.functions@.len() implies (#[trigger] new.functions@[f]).entry == old.functions@[f].entry
        && well_targeted(new.functions@[f].blocks@, new.functions@[f].entry.0) by {
        let of = old.functions@[f];
        assert(same_function_header(of, new.functions@[f]));
        if redirects(of.blocks@, of.entry.0).dom().len() != 0 {
            lemma_function_keeps_targets(of.blocks@, of.entry.0);
        }
    }
}


proof fn lemma_keep_all(blocks: Seq<BasicBlock>, ids: Set<usize>)
    requires
        forall|j: int| 0 <= j < blocks.len() ==> ids.contains(#[trigger] blocks[j].id.0),
    ensures
        keep_blocks(blocks, ids) == blocks,
    decreases blocks.len(),
{
    if blocks.len() > 0 {
        let rest = blocks.drop_first();
        assert forall|j: int| 0 <= j < rest.len() implies ids.contains(#[trigger] rest[j].id.0) by {
            assert(rest[j] == blocks[j + 1]);
        }
        lemma_keep_all(rest, ids);
        assert(ids.contains(blocks[0].id.0));
        assert(seq![blocks[0]] + rest =~= blocks);
    }
}

/// Control-flow simplification reports a change exactly when it changed
/// the blocks of some function.
pub proof fn lemma_run_reports_exactly_changes(old: IrProgram, new: IrProgram)
    requires
        run_to(old, new),
    ensures
        run_changes(old, new) <==> exists|f: int| 0 <= f < old.functions@.len()
            && (#[trigger] new.functions@[f]).blocks@ != old.functions@[f].blocks@,
{
    assert forall|f: int| 0 <= f < old.functions@.len() implies ({
        let of = #[trigger] old.functions@[f];
        let m = redirects(of.blocks@, of.entry.0);
        (m.dom().len() != 0 && ((exists|k: int| 0 <= k < of.blocks@.len()
            && retargets(#[trigger] of.blocks@[k].terminator, m))
            || new.functions@[f].blocks@.len() != of.blocks@.len()))
        <==> new.functions@[f].blocks@ != of.blocks@
    }) by {
        let of = old.functions@[f];
        let nb = new.functions@[f].blocks@;
        let m = redirects(of.blocks@, of.entry.0);
        let r = of.blocks@.map_values(|b: BasicBlock| retarget_block(b, m));
        let ids = reachable_ids(r, of.entry.0);
        if m.dom().len() != 0 && nb.len() == of.blocks@.len() {
            assert(nb == keep_blocks(r, ids));
            lemma_keep_blocks_len(r, ids);
            lemma_keep_all(r, ids);
            if exists|k: int| 0 <= k < of.blocks@.len() && retargets(#[trigger] of.blocks@[k].terminator, m) {
                let k = choose|k: int| 0 <= k < of.blocks@.len() && retargets(#[trigger] of.blocks@[k].terminator, m);
                assert(nb[k].terminator != of.blocks@[k].terminator);
            } else {
                assert forall|k: int| 0 <= k < r.len() implies #[trigger] r[k] == of.blocks@[k] by {
                    assert(!retargets(of.blocks@[k].terminator, m));
                }
                assert(nb =~= of.blocks@);
            }
        }
    }
    if run_changes(old, new) {
        let f = choose|f: int| 0 <= f < old.functions@.len() && {
            let of = #[trigger] old.functions@[f];
            let m = redirects(of.blocks@, of.entry.0);
            m.dom().len() != 0 && ((exists|k: int| 0 <= k < of.blocks@.len()
                && retargets(#[trigger] of.blocks@[k].terminator, m))
                || new.functions@[f].blocks@.len() != of.blocks@.len())
        };
        assert(new.functions@[f].blocks@ != old.functions@[f].blocks@);
    }
    if exists|f: int| 0 <= f < old.functions@.len() && (#[trigger] new.functions@[f]).blocks@ != old.functions@[f].blocks@ {
        let f = choose|f: int| 0 <= f < old.functions@.len() && (#[trigger] new.functions@[f]).blocks@ != old.functions@[f].blocks@;
        let of = old.functions@[f];
        assert(new.functions@[f].blocks@ != of.blocks@);
    }
}


/// A run that reports no change leaves the code as it was.
pub proof fn lemma_quiet_run_keeps_code(old: IrProgram, new: IrProgram)
    requires
        run_to(old, new),
        !run_changes(old, new),
    ensures
        same_code(old, new),
{
    lemma_run_reports_exactly_changes(old, new);
    assert forall|f: int| 0 <= f < old.functions@.len()
        implies same_blocks_code((#[trigger] old.functions@[f]).blocks@, new.functions@[f].blocks@) by {
        assert(new.functions@[f].blocks@ == old.functions@[f].blocks@);
    }
}

proof fn lemma_find_block_follows_ids(b1: Seq<BasicBlock>, b2: Seq<BasicBlock>, id: usize)
    requires
        b1.len() == b2.len(),
        forall|k: int| 0 <= k < b1.len() ==> (#[trigger] b1[k]).id == b2[k].id,
    ensures
        find_block(b1, id) == find_block(b2, id),
    decreases b1.len(),
{
    if b1.len() > 0 {
        assert(b1[0].id == b2[0].id);
        let r1 = b1.drop_first();
        let r2 = b2.drop_first();
        assert forall|k: int| 0 <= k < r1.len() implies (#[trigger] r1[k]).id == r2[k].id by {
            assert(r1[k] == b1[k + 1] && r2[k] == b2[k + 1]);
        }
        lemma_find_block_follows_ids(r1, r2, id);
    }
}

proof fn lemma_redirects_follow_code(b1: Seq<BasicBlock>, b2: Seq<BasicBlock>, entry: usize)
    requires
        same_blocks_code(b1, b2),
    ensures
        initial_redirects(b1, entry) == initial_redirects(b2, entry),
        redirect_keys(b1, entry) == redirect_keys(b2, entry),
    decreases b1.len(),
{
    if b1.len() > 0 {
        let r1 = b1.drop_last();
        let r2 = b2.drop_last();
        assert forall|k: int| 0 <= k < r1.len() implies same_block_code(#[trigger] r1[k], r2[k]) by {
            assert(same_block_code(b1[k], b2[k]));
        }
        lemma_redirects_follow_code(r1, r2, entry);
        assert(same_block_code(b1[b1.len() - 1], b2[b2.len() - 1]));
    }
}

proof fn lemma_keep_len_follows_ids(b1: Seq<BasicBlock>, b2: Seq<BasicBlock>, ids: Set<usize>)
    requires
        b1.len() == b2.len(),
        forall|k: int| 0 <= k < b1.len() ==> (#[trigger] b1[k]).id == b2[k].id,
    ensures
        keep_blocks(b1, ids).len() == keep_blocks(b2, ids).len(),
    decreases b1.len(),
{
    if b1.len() > 0 {
        assert(b1[0].id == b2[0].id);
        let r1 = b1.drop_first();
        let r2 = b2.drop_first();
        assert forall|k: int| 0 <= k < r1.len() implies (#[trigger] r1[k]).id == r2[k].id by {
            assert(r1[k] == b1[k + 1] && r2[k] == b2[k + 1]);
        }
        lemma_keep_len_follows_ids(r1, r2, ids);
    }
}

/// What the pass keeps of a function has a length that depends only on its code.
proof fn lemma_kept_len_follows_code(b1: Seq<BasicBlock>, b2: Seq<BasicBlock>, entry: usize)
    requires
        same_blocks_code(b1, b2),
    ensures
        redirects(b1, entry) == redirects(b2, entry),
        ({
            let m = redirects(b1, entry);
            let r1 = b1.map_values(|b: BasicBlock| retarget_block(b, m));
            let r2 = b2.map_values(|b: BasicBlock| retarget_block(b, m));
            keep_blocks(r1, reachable_ids(r1, entry)).len() == keep_blocks(r2, reachable_ids(r2, entry)).len()
        }),
{
    lemma_redirects_follow_code(b1, b2, entry);
    let m = redirects(b1, entry);
    let r1 = b1.map_values(|b: BasicBlock| retarget_block(b, m));
    let r2 = b2.map_values(|b: BasicBlock| retarget_block(b, m));
    assert forall|k: int| 0 <= k < r1.len() implies (#[trigger] r1[k]).id == r2[k].id && r1[k].terminator == r2[k].terminator by {
        assert(same_block_code(b1[k], b2[k]));
    }
    assert forall|id: usize| #[trigger] successors(r1, id) == successors(r2, id) by {
        lemma_find_block_follows_ids(r1, r2, id);
        lemma_find_block(r1, id);
    }
    assert forall|p: Seq<usize>| #[trigger] is_walk(r1, entry, p) == is_walk(r2, entry, p) by {
        if is_walk(r1, entry, p) {
            assert forall|i: int| 0 <= i < p.len() - 1 implies successors(r2, #[trigger] p[i]).contains(p[i + 1]) by {
                assert(successors(r1, p[i]) == successors(r2, p[i]));
            }
        }
        if is_walk(r2, entry, p) {
            assert forall|i: int| 0 <= i < p.len() - 1 implies successors(r1, #[trigger] p[i]).contains(p[i + 1]) by {
                assert(successors(r1, p[i]) == successors(r2, p[i]));
            }
        }
    }
    assert(reachable_ids(r1, entry) =~= reachable_ids(r2, entry)) by {
        assert forall|id: usize| reachable(r1, entry, id) == reachable(r2, entry, id) by {
            if reachable(r1, entry, id) {
                let p = choose|p: Seq<usize>| is_walk(r1, entry, p) && p.last() == id;
                assert(is_walk(r2, entry, p));
            }
            if reachable(r2, entry, id) {
                let p = choose|p: Seq<usize>| is_walk(r2, entry, p) && p.last() == id;
                assert(is_walk(r1, entry, p));
            }
        }
    }
    lemma_keep_len_follows_ids(r1, r2, reachable_ids(r1, entry));
}

/// Whether a run reports a change depends only on the code of the program.
pub proof fn lemma_changes_follow_code(a: IrProgram, a2: IrProgram, b: IrProgram, b2: IrProgram)
    requires
        same_code(a, a2),
        run_to(a, b),
        run_to(a2, b2),
    ensures
        run_changes(a, b) == run_changes(a2, b2),
{
    assert forall|f: int| 0 <= f < a.functions@.len() implies ({
        let of = #[trigger] a.functions@[f];
        let m = redirects(of.blocks@, of.entry.0);
        m.dom().len() != 0 && ((exists|k: int| 0 <= k < of.blocks@.len()
            && retargets(#[trigger] of.blocks@[k].terminator, m))
            || b.functions@[f].blocks@.len() != of.blocks@.len())
    }) == ({
        let of = a2.functions@[f];
        let m = redirects(of.blocks@, of.entry.0);
        m.dom().len() != 0 && ((exists|k: int| 0 <= k < of.blocks@.len()
            && retargets(#[trigger] of.blocks@[k].terminator, m))
            || b2.functions@[f].blocks@.len() != of.blocks@.len())
    }) by {
        let of = a.functions@[f];
        let of2 = a2.functions@[f];
        assert(same_blocks_code(of.blocks@, of2.blocks@));
        assert(same_function_header(of, of2));
        lemma_kept_len_follows_code(of.blocks@, of2.blocks@, of.entry.0);
        let m = redirects(of.blocks@, of.entry.0);
        assert forall|k: int| 0 <= k < of.blocks@.len() implies
            retargets(#[trigger] of.blocks@[k].terminator, m) == retargets(of2.blocks@[k].terminator, m) by {
            assert(same_block_code(of.blocks@[k], of2.blocks@[k]));
        }
        if exists|k: int| 0 <= k < of2.blocks@.len() && retargets(#[trigger] of2.blocks@[k].terminator, m) {
            let k = choose|k: int| 0 <= k < of2.blocks@.len() && retargets(#[trigger] of2.blocks@[k].terminator, m);
            assert(retargets(of.blocks@[k].terminator, m));
        }
        assert(b.functions@[f].blocks@.len() == b2.functions@[f].blocks@.len());
    }
    if run_changes(a2, b2) {
        let f = choose|f: int| 0 <= f < a2.functions@.len() && {
            let of = #[trigger] a2.functions@[f];
            let m = redirects(of.blocks@, of.entry.0);
            m.dom().len() != 0 && ((exists|k: int| 0 <= k < of.blocks@.len()
                && retargets(#[trigger] of.blocks@[k].terminator, m))
                || b2.functions@[f].blocks@.len() != of.blocks@.len())
        };
        assert({
            let of = a.functions@[f];
            let m = redirects(of.blocks@, of.entry.0);
            m.dom().len() != 0 && ((exists|k: int| 0 <= k < of.blocks@.len()
                && retargets(#[trigger] of.blocks@[k].terminator, m))
                || b.functions@[f].blocks@.len() != of.blocks@.len())
        });
        assert(run_changes(a, b));
    }
    if run_changes(a, b) {
        let f = choose|f: int| 0 <= f < a.functions@.len() && {
            let of = #[trigger] a.functions@[f];
            let m = redirects(of.blocks@, of.entry.0);
            m.dom().len() != 0 && ((exists|k: int| 0 <= k < of.blocks@.len()
                && retargets(#[trigger] of.blocks@[k].terminator, m))
                || b.functions@[f].blocks@.len() != of.blocks@.len())
        };
        assert({
            let of = a2.functions@[f];
            let m = redirects(of.blocks@, of.entry.0);
            m.dom().len() != 0 && ((exists|k: int| 0 <= k < of.blocks@.len()
                && retargets(#[trigger] of.blocks@[k].terminator, m))
                || b2.functions@[f].blocks@.len() != of.blocks@.len())
        });
        assert(run_changes(a2, b2));
    }
}

} // verus!
