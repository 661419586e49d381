//! Hoisting of leading constants out of loops into the loop's preheader.

use vstd::prelude::*;

use crate::ir::cfg::{find_block, lemma_find_block, position_of_block};
use crate::ir::opt::{same_block_code, same_blocks_code, same_code, same_function_header, same_program_header};
use crate::ir::{BasicBlock, BlockId, Instr, IrFunction, IrProgram, Terminator};
use crate::text::text_eq;

verus! {

/// The position of the first block named `name`, or -1.
pub open spec fn find_named(blocks: Seq<BasicBlock>, name: Seq<char>) -> int
    decreases blocks.len(),
{
    if blocks.len() == 0 {
        -1
    } else if blocks[0].name@ == name {
        0
    } else {
        let r = find_named(blocks.drop_first(), name);
        if r < 0 { -1 } else { r + 1 }
    }
}

proof fn lemma_find_named(blocks: Seq<BasicBlock>, name: Seq<char>)
    ensures
        -1 <= find_named(blocks, name) < blocks.len(),
        find_named(blocks, name) >= 0 ==> blocks[find_named(blocks, name)].name@ == name
            && forall|j: int| 0 <= j < find_named(blocks, name) ==> blocks[j].name@ != name,
        find_named(blocks, name) < 0 ==> forall|j: int| 0 <= j < blocks.len() ==> blocks[j].name@ != name,
    decreases blocks.len(),
{
    if blocks.len() > 0 && blocks[0].name@ != name {
        lemma_find_named(blocks.drop_first(), name);
        assert forall|j: int| 1 <= j < blocks.len() implies blocks[j] == blocks.drop_first()[j - 1] by {}
    }
}

fn position_named(blocks: &Vec<BasicBlock>, name: &str) -> (r: Option<usize>)
    ensures
        match r {
            Some(i) => find_named(blocks@, name@) == i as int,
            None => find_named(blocks@, name@) < 0,
        },
{
    proof {
        lemma_find_named(blocks@, name@);
    }
    let mut i: usize = 0;
    while i < blocks.len()
        invariant
            i <= blocks@.len(),
            forall|j: int| 0 <= j < i ==> blocks@[j].name@ != name@,
            -1 <= find_named(blocks@, name@) < blocks@.len(),
            find_named(blocks@, name@) >= 0 ==> blocks@[find_named(blocks@, name@)].name@ == name@
                && forall|j: int| 0 <= j < find_named(blocks@, name@) ==> blocks@[j].name@ != name@,
        decreases blocks@.len() - i,
    {
        if text_eq(blocks[i].name.as_str(), name) {
            assert(blocks@[i as int].name@ == name@);
            proof {
                lemma_find_named(blocks@, name@);
                let f = find_named(blocks@, name@);
                if f < 0 {
                    assert(blocks@[i as int].name@ != name@);
                } else if f < i {
                    assert(blocks@[f].name@ != name@);
                } else if f > i {
                    assert(blocks@[i as int].name@ != name@);
                }
            }
            return Some(i);
        }
        i += 1;
    }
    None
}

/// `term` jumps or branches to block id `target`.
pub open spec fn targets(term: Terminator, target: usize) -> bool {
    match term {
        Terminator::Jump(t) => t.0 == target,
        Terminator::Branch(b) => b.then_block.0 == target || b.else_block.0 == target,
        _ => false,
    }
}

/// The ids of the blocks whose terminator targets `target`, in block order.
pub open spec fn predecessors_of(blocks: Seq<BasicBlock>, target: usize) -> Seq<usize>
    decreases blocks.len(),
{
    if blocks.len() == 0 {
        seq![]
    } else {
        let ps = predecessors_of(blocks.drop_last(), target);
        if targets(blocks.last().terminator, target) { ps.push(blocks.last().id.0) } else { ps }
    }
}

/// The ids of the blocks of `func` whose terminator targets `target`, in block order.
pub fn predecessors(func: &IrFunction, target: BlockId) -> (r: Vec<BlockId>)
    ensures
        r@.map_values(|b: BlockId| b.0) == predecessors_of(func.blocks@, target.0),
{
    let mut out: Vec<BlockId> = Vec::new();
    let mut k: usize = 0;
    while k < func.blocks.len()
        invariant
            k <= func.blocks@.len(),
            out@.map_values(|b: BlockId| b.0) == predecessors_of(func.blocks@.take(k as int), target.0),
        decreases func.blocks@.len() - k,
    {
        proof {
            assert(func.blocks@.take(k + 1).drop_last() =~= func.blocks@.take(k as int));
        }
        let block = &func.blocks[k];
        let hit = match &block.terminator {
            Terminator::Jump(next) => next.0 == target.0,
            Terminator::Branch(branch) => branch.then_block.0 == target.0 || branch.else_block.0 == target.0,
            _ => false,
        };
        if hit {
            let ghost o0 = out@;
            out.push(block.id);
            assert(out@.map_values(|b: BlockId| b.0) =~= o0.map_values(|b: BlockId| b.0).push(block.id.0));
        }
        k += 1;
    }
    proof {
        assert(func.blocks@.take(k as int) =~= func.blocks@);
    }
    out
}

/// A predecessor that can serve as preheader: it has a block, not named
/// `while_body` nor `for_step`.
pub open spec fn preheader_candidate(blocks: Seq<BasicBlock>, id: usize) -> bool {
    let i = find_block(blocks, id);
    i >= 0 && blocks[i].name@ != "while_body"@ && blocks[i].name@ != "for_step"@
}

/// The preheader of a loop header: of exactly two predecessors, the first that is a candidate.
pub open spec fn spec_preheader(blocks: Seq<BasicBlock>, header: usize) -> Option<usize> {
    let ps = predecessors_of(blocks, header);
    if ps.len() != 2 {
        None
    } else if preheader_candidate(blocks, ps[0]) {
        Some(ps[0])
    } else if preheader_candidate(blocks, ps[1]) {
        Some(ps[1])
    } else {
        None
    }
}

fn is_candidate(func: &IrFunction, id: BlockId) -> (r: bool)
    ensures
        r == preheader_candidate(func.blocks@, id.0),
{
    proof {
        lemma_find_block(func.blocks@, id.0);
    }
    match position_of_block(&func.blocks, id) {
        Some(i) => {
            let block = &func.blocks[i];
            !text_eq(block.name.as_str(), "while_body") && !text_eq(block.name.as_str(), "for_step")
        },
        None => false,
    }
}

/// The preheader of the loop whose header is block `header`, if it has one.
pub fn find_preheader(func: &IrFunction, header: BlockId) -> (r: Option<BlockId>)
    ensures
        match r {
            Some(b) => spec_preheader(func.blocks@, header.0) == Some(b.0),
            None => spec_preheader(func.blocks@, header.0) is None,
        },
{
    let preds = predecessors(func, header);
    proof {
        assert(preds@.len() == predecessors_of(func.blocks@, header.0).len());
    }
    if preds.len() != 2 {
        return None;
    }
    proof {
        assert(preds@[0].0 == predecessors_of(func.blocks@, header.0)[0]);
        assert(preds@[1].0 == predecessors_of(func.blocks@, header.0)[1]);
    }
    if is_candidate(func, preds[0]) {
        Some(preds[0])
    } else if is_candidate(func, preds[1]) {
        Some(preds[1])
    } else {
        None
    }
}

/// The names of the blocks of a loop, given its header's name.
pub open spec fn spec_related_loop_blocks(header_name: Seq<char>) -> Seq<Seq<char>> {
    if header_name == "while_cond"@ {
        seq!["while_cond"@, "while_body"@]
    } else if header_name == "for_cond"@ {
        seq!["for_cond"@, "for_body"@, "for_step"@]
    } else {
        seq![]
    }
}

/// The names of the blocks of a loop, given its header's name.
pub fn related_loop_blocks(header_name: &str) -> (r: Vec<&'static str>)
    ensures
        r@.map_values(|s: &str| s@) == spec_related_loop_blocks(header_name@),
{
    let mut out: Vec<&'static str> = Vec::new();
    if text_eq(header_name, "while_cond") {
        out.push("while_cond");
        out.push("while_body");
        assert(out@.map_values(|s: &str| s@) =~= seq!["while_cond"@, "while_body"@]);
    } else if text_eq(header_name, "for_cond") {
        out.push("for_cond");
        out.push("for_body");
        out.push("for_step");
        assert(out@.map_values(|s: &str| s@) =~= seq!["for_cond"@, "for_body"@, "for_step"@]);
    } else {
        assert(out@.map_values(|s: &str| s@) =~= Seq::<Seq<char>>::empty());
    }
    out
}

/// The number of `Const` instructions at the start of `instrs`.
pub open spec fn leading_consts(instrs: Seq<Instr>) -> nat
    decreases instrs.len(),
{
    if instrs.len() == 0 {
        0
    } else if instrs[0] is Const {
        1 + leading_consts(instrs.drop_first())
    } else {
        0
    }
}

proof fn lemma_leading_consts(instrs: Seq<Instr>, n: int)
    requires
        0 <= n <= instrs.len(),
        forall|j: int| 0 <= j < n ==> #[trigger] instrs[j] is Const,
        n == instrs.len() || !(instrs[n] is Const),
    ensures
        leading_consts(instrs) == n,
    decreases n,
{
    if n > 0 {
        lemma_leading_consts(instrs.drop_first(), n - 1);
    }
}

/// The block contents after moving the leading constants of block `from` to the end of block `to`.
pub open spec fn hoist(instrs: Seq<Seq<Instr>>, from: int, to: int) -> Seq<Seq<Instr>> {
    let n = leading_consts(instrs[from]) as int;
    let moved = instrs[from].take(n);
    let after_take = instrs.update(from, instrs[from].skip(n));
    after_take.update(to, after_take[to] + moved)
}

/// The block contents after processing the loop blocks `names` of a loop whose preheader is block `pre`.
pub open spec fn hoist_names(blocks: Seq<BasicBlock>, instrs: Seq<Seq<Instr>>, pre: int, names: Seq<Seq<char>>) -> (Seq<Seq<Instr>>, bool)
    decreases names.len(),
{
    if names.len() == 0 {
        (instrs, false)
    } else {
        let (s, c) = hoist_names(blocks, instrs, pre, names.drop_last());
        let i = find_named(blocks, names.last());
        if i < 0 || leading_consts(s[i]) == 0 {
            (s, c)
        } else {
            (hoist(s, i, pre), true)
        }
    }
}

/// The block contents after treating the block with id `header` as a possible loop header.
pub open spec fn hoist_header(blocks: Seq<BasicBlock>, instrs: Seq<Seq<Instr>>, header: usize) -> (Seq<Seq<Instr>>, bool) {
    let h = find_block(blocks, header);
    if h < 0 {
        (instrs, false)
    } else {
        let name = blocks[h].name@;
        if name != "while_cond"@ && name != "for_cond"@ {
            (instrs, false)
        } else {
            match spec_preheader(blocks, header) {
                None => (instrs, false),
                Some(p) => {
                    let pi = find_block(blocks, p);
                    if pi < 0 {
                        (instrs, false)
                    } else {
                        hoist_names(blocks, instrs, pi, spec_related_loop_blocks(name))
                    }
                },
            }
        }
    }
}

/// The block contents after treating the first `n` block ids in turn as loop headers.
pub open spec fn hoist_headers(blocks: Seq<BasicBlock>, n: int) -> (Seq<Seq<Instr>>, bool)
    decreases n,
{
    if n <= 0 {
        (blocks.map_values(|b: BasicBlock| b.instrs@), false)
    } else {
        let (s, c) = hoist_headers(blocks, n - 1);
        let (s2, c2) = hoist_header(blocks, s, blocks[n - 1].id.0);
        (s2, c || c2)
    }
}

/// What loop-invariant code motion makes of the blocks of a function: their
/// contents, and whether anything moved.
pub open spec fn licm_function(blocks: Seq<BasicBlock>) -> (Seq<Seq<Instr>>, bool) {
    hoist_headers(blocks, blocks.len() as int)
}

/// The blocks of `f` hold the contents `instrs` and otherwise agree with `blocks`.
pub open spec fn blocks_with(f: IrFunction, blocks: Seq<BasicBlock>, instrs: Seq<Seq<Instr>>) -> bool {
    &&& f.blocks@.len() == blocks.len()
    &&& instrs.len() == blocks.len()
    &&& forall|k: int| 0 <= k < blocks.len() ==> {
        &&& (#[trigger] f.blocks@[k]).id == blocks[k].id
        &&& f.blocks@[k].name == blocks[k].name
        &&& f.blocks@[k].terminator == blocks[k].terminator
        &&& f.blocks@[k].instrs@ == instrs[k]
    }
}

proof fn lemma_blocks_with_same_meta(fb: Seq<BasicBlock>, blocks: Seq<BasicBlock>, id: usize, name: Seq<char>)
    requires
        fb.len() == blocks.len(),
        forall|k: int| 0 <= k < blocks.len() ==> (#[trigger] fb[k]).id == blocks[k].id && fb[k].name == blocks[k].name
            && fb[k].terminator == blocks[k].terminator,
    ensures
        find_block(fb, id) == find_block(blocks, id),
        find_named(fb, name) == find_named(blocks, name),
        predecessors_of(fb, id) == predecessors_of(blocks, id),
        spec_preheader(fb, id) == spec_preheader(blocks, id),
{
    lemma_meta_prefix(fb, blocks, id, name, blocks.len() as int);
    assert(fb.take(blocks.len() as int) =~= fb);
    assert(blocks.take(blocks.len() as int) =~= blocks);
    let ps = predecessors_of(blocks, id);
    if ps.len() == 2 {
        lemma_meta_prefix(fb, blocks, ps[0], name, blocks.len() as int);
        lemma_meta_prefix(fb, blocks, ps[1], name, blocks.len() as int);
        lemma_find_block(fb, ps[0]);
        lemma_find_block(fb, ps[1]);
    }
}

proof fn lemma_meta_prefix(fb: Seq<BasicBlock>, blocks: Seq<BasicBlock>, x: usize, nm: Seq<char>, n: int)
    requires
        0 <= n <= blocks.len(),
        fb.len() == blocks.len(),
        forall|k: int| 0 <= k < blocks.len() ==> (#[trigger] fb[k]).id == blocks[k].id && fb[k].name == blocks[k].name
            && fb[k].terminator == blocks[k].terminator,
    ensures
        find_block(fb.take(n), x) == find_block(blocks.take(n), x),
        find_named(fb.take(n), nm) == find_named(blocks.take(n), nm),
        predecessors_of(fb.take(n), x) == predecessors_of(blocks.take(n), x),
    decreases n,
{
    if n > 0 {
        lemma_meta_prefix(fb, blocks, x, nm, n - 1);
        assert(fb.take(n).drop_last() =~= fb.take(n - 1));
        assert(blocks.take(n).drop_last() =~= blocks.take(n - 1));
        lemma_find_first_same(fb.take(n), blocks.take(n), x, nm);
    }
}

proof fn lemma_find_first_same(a: Seq<BasicBlock>, b: Seq<BasicBlock>, x: usize, nm: Seq<char>)
    requires
        a.len() == b.len(),
        forall|k: int| 0 <= k < b.len() ==> (#[trigger] a[k]).id == b[k].id && a[k].name == b[k].name,
    ensures
        find_block(a, x) == find_block(b, x),
        find_named(a, nm) == find_named(b, nm),
    decreases a.len(),
{
    if a.len() > 0 {
        assert(a[0].id == b[0].id && a[0].name == b[0].name);
        lemma_find_first_same(a.drop_first(), b.drop_first(), x, nm);
        assert forall|k: int| 0 <= k < b.len() - 1 implies (#[trigger] a.drop_first()[k]).id == b.drop_first()[k].id
            && a.drop_first()[k].name == b.drop_first()[k].name by {
            assert(a[k + 1].id == b[k + 1].id);
        }
    }
}

fn is_const_instr(instr: &Instr) -> (r: bool)
    ensures
        r == (*instr is Const),
{
    matches!(instr, Instr::Const { .. })
}

proof fn lemma_leading_consts_bound(instrs: Seq<Instr>)
    ensures
        leading_consts(instrs) <= instrs.len(),
    decreases instrs.len(),
{
    if instrs.len() > 0 {
        lemma_leading_consts_bound(instrs.drop_first());
    }
}

fn leading_const_count(instrs: &Vec<Instr>) -> (r: usize)
    ensures
        r as nat == leading_consts(instrs@),
        r <= instrs@.len(),
{
    let mut n: usize = 0;
    while n < instrs.len() && is_const_instr(&instrs[n])
        invariant
            n <= instrs@.len(),
            forall|j: int| 0 <= j < n ==> #[trigger] instrs@[j] is Const,
        decreases instrs@.len() - n,
    {
        n += 1;
    }
    proof {
        lemma_leading_consts(instrs@, n as int);
    }
    n
}

/// Moves the leading constants of the first block named `name` to the end of block `pre`.
fn hoist_named(func: &mut IrFunction, name: &str, pre: usize, Ghost(blocks): Ghost<Seq<BasicBlock>>, Ghost(s): Ghost<Seq<Seq<Instr>>>) -> (changed: bool)
    requires
        blocks_with(*old(func), blocks, s),
        pre < blocks.len(),
    ensures
        same_function_header(*old(func), *final(func)),
        ({
            let i = find_named(blocks, name@);
            if i < 0 || leading_consts(s[i]) == 0 {
                blocks_with(*final(func), blocks, s) && !changed
            } else {
                blocks_with(*final(func), blocks, hoist(s, i, pre as int)) && changed
            }
        }),
{
    proof {
        lemma_blocks_with_same_meta(func.blocks@, blocks, 0, name@);
        lemma_find_named(blocks, name@);
    }
    let loop_idx = match position_named(&func.blocks, name) {
        Some(i) => i,
        None => return false,
    };
    let split_at = leading_const_count(&func.blocks[loop_idx].instrs);
    if split_at == 0 {
        return false;
    }
    let ghost li = loop_idx as int;
    let ghost orig = func.blocks@[li].instrs@;
    let mut hoisted: Vec<Instr> = Vec::new();
    let mut j: usize = 0;
    while j < split_at
        invariant
            j <= split_at,
            li == loop_idx as int,
            split_at as nat == leading_consts(orig),
            split_at <= orig.len(),
            loop_idx < func.blocks@.len(),
            func.blocks@.len() == blocks.len(),
            same_function_header(*old(func), *func),
            func.blocks@[li].instrs@ == orig.skip(j as int),
            hoisted@ == orig.take(j as int),
            func.blocks@[li].id == blocks[li].id,
            func.blocks@[li].name == blocks[li].name,
            func.blocks@[li].terminator == blocks[li].terminator,
            forall|k: int| 0 <= k < blocks.len() && k != li ==> #[trigger] func.blocks@[k] == old(func).blocks@[k],
        decreases split_at - j,
    {
        let ghost before = func.blocks@[li].instrs@;
        let instr = func.blocks[loop_idx].instrs.remove(0);
        assert(func.blocks@[li].instrs@ =~= orig.skip(j + 1));
        hoisted.push(instr);
        assert(hoisted@ =~= orig.take(j + 1));
        j += 1;
    }
    let ghost mid = func.blocks@;
    func.blocks[pre].instrs.append(&mut hoisted);
    proof {
        let target = hoist(s, li, pre as int);
        assert forall|k: int| 0 <= k < blocks.len() implies (#[trigger] func.blocks@[k]).instrs@ == target[k] by {}
    }
    true
}

/// Treats block `header` as a possible loop header and hoists accordingly.
fn hoist_for_header(func: &mut IrFunction, header: BlockId, Ghost(blocks): Ghost<Seq<BasicBlock>>, Ghost(s): Ghost<Seq<Seq<Instr>>>) -> (changed: bool)
    requires
        blocks_with(*old(func), blocks, s),
    ensures
        same_function_header(*old(func), *final(func)),
        blocks_with(*final(func), blocks, hoist_header(blocks, s, header.0).0),
        changed == hoist_header(blocks, s, header.0).1,
{
    proof {
        lemma_blocks_with_same_meta(func.blocks@, blocks, header.0, Seq::empty());
        lemma_find_block(blocks, header.0);
    }
    let header_idx = match position_of_block(&func.blocks, header) {
        Some(i) => i,
        None => return false,
    };
    let header_name = func.blocks[header_idx].name.clone();
    if !text_eq(header_name.as_str(), "while_cond") && !text_eq(header_name.as_str(), "for_cond") {
        return false;
    }
    let preheader = match find_preheader(func, header) {
        Some(p) => p,
        None => return false,
    };
    proof {
        lemma_blocks_with_same_meta(func.blocks@, blocks, preheader.0, Seq::empty());
        lemma_find_block(blocks, preheader.0);
    }
    let pre_idx = match position_of_block(&func.blocks, preheader) {
        Some(i) => i,
        None => return false,
    };
    let names = related_loop_blocks(header_name.as_str());
    let ghost nm = names@.map_values(|x: &str| x@);
    let mut changed = false;
    let mut i: usize = 0;
    while i < names.len()
        invariant
            i <= names@.len(),
            nm == names@.map_values(|x: &str| x@),
            pre_idx < blocks.len(),
            same_function_header(*old(func), *func),
            blocks_with(*func, blocks, hoist_names(blocks, s, pre_idx as int, nm.take(i as int)).0),
            changed == hoist_names(blocks, s, pre_idx as int, nm.take(i as int)).1,
        decreases names@.len() - i,
    {
        proof {
            assert(nm.take(i + 1).drop_last() =~= nm.take(i as int));
            assert(nm.take(i + 1).last() == names@[i as int]@);
        }
        let c = hoist_named(func, names[i], pre_idx, Ghost(blocks), Ghost(hoist_names(blocks, s, pre_idx as int, nm.take(i as int)).0));
        changed = changed || c;
        i += 1;
    }
    proof {
        assert(nm.take(i as int) =~= nm);
    }
    changed
}

/// Hoists the leading constants of each loop's blocks of one function into its preheader.
pub fn run_function(func: &mut IrFunction) -> (changed: bool)
    ensures
        same_function_header(*old(func), *final(func)),
        blocks_with(*final(func), old(func).blocks@, licm_function(old(func).blocks@).0),
        changed == licm_function(old(func).blocks@).1,
{
    let ghost blocks = func.blocks@;
    let mut ids: Vec<BlockId> = Vec::new();
    let mut k: usize = 0;
    while k < func.blocks.len()
        invariant
            k <= blocks.len(),
            blocks == func.blocks@,
            ids@.len() == k,
            forall|j: int| 0 <= j < k ==> #[trigger] ids@[j] == blocks[j].id,
        decreases blocks.len() - k,
    {
        ids.push(func.blocks[k].id);
        k += 1;
    }
    proof {
        assert(blocks_with(*func, blocks, blocks.map_values(|b: BasicBlock| b.instrs@)));
    }
    let mut changed = false;
    let mut n: usize = 0;
    while n < ids.len()
        invariant
            n <= ids@.len(),
            ids@.len() == blocks.len(),
            forall|j: int| 0 <= j < blocks.len() ==> #[trigger] ids@[j] == blocks[j].id,
            same_function_header(*old(func), *func),
            blocks == old(func).blocks@,
            blocks_with(*func, blocks, hoist_headers(blocks, n as int).0),
            changed == hoist_headers(blocks, n as int).1,
        decreases ids@.len() - n,
    {
        let c = hoist_for_header(func, ids[n], Ghost(blocks), Ghost(hoist_headers(blocks, n as int).0));
        changed = changed || c;
        n += 1;
    }
    changed
}

/// Loop-invariant code motion: for each block named `while_cond` or
/// `for_cond` whose two predecessors include one that is not the loop's
/// back edge (`while_body`, `for_step`), moves the leading constants of the
/// first block of each of the loop's block names (`while_cond`, `while_body`,
/// or `for_cond`, `for_body`, `for_step`) to the end of that preheader.
/// Returns whether anything moved.
/// The program `new` is what this pass makes of `old`.
pub open spec fn run_to(old: IrProgram, new: IrProgram) -> bool {
    &&& same_program_header(old, new)
    &&& forall|f: int| 0 <= f < old.functions@.len() ==> blocks_with(
        #[trigger] new.functions@[f],
        old.functions@[f].blocks@,
        licm_function(old.functions@[f].blocks@).0,
    )
}

/// The pass, taking `old` to `new`, reports a change.
pub open spec fn run_changes(old: IrProgram, new: IrProgram) -> bool {
    exists|f: int| 0 <= f < old.functions@.len()
        && licm_function(#[trigger] old.functions@[f].blocks@).1
}

pub fn run(program: &mut IrProgram) -> (changed: bool)
    ensures
        same_program_header(*old(program), *final(program)),
        forall|f: int| 0 <= f < old(program).functions@.len() ==> blocks_with(
            #[trigger] final(program).functions@[f],
            old(program).functions@[f].blocks@,
            licm_function(old(program).functions@[f].blocks@).0,
        ),
        changed == exists|f: int| 0 <= f < old(program).functions@.len()
            && licm_function(#[trigger] old(program).functions@[f].blocks@).1,
{
    let mut changed = false;
    let mut f: usize = 0;
    while f < program.functions.len()
        invariant
            f <= program.functions@.len(),
            program.functions@.len() == old(program).functions@.len(),
            program.globals == old(program).globals,
            program.structs == old(program).structs,
            program.module_init == old(program).module_init,
            forall|i: int| 0 <= i < f ==> same_function_header(old(program).functions@[i], #[trigger] program.functions@[i]),
            forall|i: int| 0 <= i < f ==> blocks_with(
                #[trigger] program.functions@[i],
                old(program).functions@[i].blocks@,
                licm_function(old(program).functions@[i].blocks@).0,
            ),
            forall|i: int| f <= i < program.functions@.len()
                ==> #[trigger] program.functions@[i] == old(program).functions@[i],
            changed == exists|i: int| 0 <= i < f && licm_function(#[trigger] old(program).functions@[i].blocks@).1,
        decreases program.functions@.len() - f,
    {
        let c = run_function(&mut program.functions[f]);
        changed = changed || c;
        f += 1;
    }
    changed
}


proof fn lemma_hoist_names_quiet(blocks: Seq<BasicBlock>, instrs: Seq<Seq<Instr>>, pre: int, names: Seq<Seq<char>>)
    requires
        !hoist_names(blocks, instrs, pre, names).1,
    ensures
        hoist_names(blocks, instrs, pre, names).0 == instrs,
    decreases names.len(),
{
    if names.len() > 0 {
        lemma_hoist_names_quiet(blocks, instrs, pre, names.drop_last());
    }
}

proof fn lemma_hoist_headers_quiet(blocks: Seq<BasicBlock>, n: int)
    requires
        !hoist_headers(blocks, n).1,
    ensures
        hoist_headers(blocks, n).0 == blocks.map_values(|b: BasicBlock| b.instrs@),
    decreases n,
{
    if n > 0 {
        let (s, c) = hoist_headers(blocks, n - 1);
        lemma_hoist_headers_quiet(blocks, n - 1);
        let header = blocks[n - 1].id.0;
        let h = find_block(blocks, header);
        if h >= 0 {
            let name = blocks[h].name@;
            if name == "while_cond"@ || name == "for_cond"@ {
                match spec_preheader(blocks, header) {
                    Some(p) => {
                        let pi = find_block(blocks, p);
                        if pi >= 0 {
                            lemma_hoist_names_quiet(blocks, s, pi, spec_related_loop_blocks(name));
                        }
                    },
                    None => {},
                }
            }
        }
    }
}

proof fn lemma_hoist_names_follow_code(b1: Seq<BasicBlock>, b2: Seq<BasicBlock>, instrs: Seq<Seq<Instr>>, pre: int, names: Seq<Seq<char>>)
    requires
        same_blocks_code(b1, b2),
    ensures
        hoist_names(b1, instrs, pre, names) == hoist_names(b2, instrs, pre, names),
    decreases names.len(),
{
    if names.len() > 0 {
        lemma_hoist_names_follow_code(b1, b2, instrs, pre, names.drop_last());
        lemma_blocks_with_same_meta(b1, b2, 0, names.last());
    }
}

proof fn lemma_hoist_headers_follow_code(b1: Seq<BasicBlock>, b2: Seq<BasicBlock>, n: int)
    requires
        same_blocks_code(b1, b2),
        n <= b1.len(),
    ensures
        hoist_headers(b1, n) == hoist_headers(b2, n),
    decreases n,
{
    if n <= 0 {
        assert(b1.map_values(|b: BasicBlock| b.instrs@) =~= b2.map_values(|b: BasicBlock| b.instrs@)) by {
            assert forall|k: int| 0 <= k < b1.len() implies b1[k].instrs@ == b2[k].instrs@ by {
                assert(same_block_code(b1[k], b2[k]));
            }
        }
    } else {
        lemma_hoist_headers_follow_code(b1, b2, n - 1);
        assert(same_block_code(b1[n - 1], b2[n - 1]));
        let header = b1[n - 1].id.0;
        let (s, c) = hoist_headers(b1, n - 1);
        lemma_blocks_with_same_meta(b1, b2, header, seq![]);
        let h = find_block(b1, header);
        if h >= 0 {
            lemma_find_block(b1, header);
            assert(same_block_code(b1[h], b2[h]));
            match spec_preheader(b1, header) {
                Some(p) => {
                    lemma_blocks_with_same_meta(b1, b2, p, seq![]);
                    lemma_hoist_names_follow_code(b1, b2, s, find_block(b1, p), spec_related_loop_blocks(b1[h].name@));
                },
                None => {},
            }
        }
    }
}

/// A run that reports no change leaves the code as it was.
pub proof fn lemma_quiet_run_keeps_code(old: IrProgram, new: IrProgram)
    requires
        run_to(old, new),
        !run_changes(old, new),
    ensures
        same_code(old, new),
{
    assert forall|f: int| 0 <= f < old.functions@.len()
        implies same_blocks_code((#[trigger] old.functions@[f]).blocks@, new.functions@[f].blocks@) by {
        let ob = old.functions@[f].blocks@;
        let nb = new.functions@[f].blocks@;
        assert(!licm_function(old.functions@[f].blocks@).1);
        lemma_hoist_headers_quiet(ob, ob.len() as int);
        assert(blocks_with(new.functions@[f], ob, licm_function(ob).0));
        assert forall|k: int| 0 <= k < ob.len() implies same_block_code(#[trigger] ob[k], nb[k]) by {
            assert(nb[k].instrs@ == licm_function(ob).0[k]);
        }
    }
}

/// Whether a run reports a change depends only on the code of the program.
pub proof fn lemma_changes_follow_code(a: IrProgram, a2: IrProgram, b: IrProgram, b2: IrProgram)
    requires
        same_code(a, a2),
    ensures
        run_changes(a, b) == run_changes(a2, b2),
{
    assert forall|f: int| 0 <= f < a.functions@.len()
        implies licm_function(#[trigger] a.functions@[f].blocks@) == licm_function(a2.functions@[f].blocks@) by {
        assert(same_blocks_code(a.functions@[f].blocks@, a2.functions@[f].blocks@));
        lemma_hoist_headers_follow_code(a.functions@[f].blocks@, a2.functions@[f].blocks@, a.functions@[f].blocks@.len() as int);
    }
    if run_changes(a2, b2) {
        let f = choose|f: int| 0 <= f < a2.functions@.len() && licm_function(#[trigger] a2.functions@[f].blocks@).1;
        assert(licm_function(a.functions@[f].blocks@) == licm_function(a2.functions@[f].blocks@));
    }
}

} // verus!
