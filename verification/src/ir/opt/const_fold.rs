//! Constant folding inside basic blocks.

use vstd::prelude::*;
use vstd::hash_map::HashMapWithView;

use crate::ir::consts::{
    ConstV, cview, eval_binary, eval_compare, eval_logic, eval_unary, spec_eval_binary,
    spec_eval_compare, spec_eval_logic, spec_eval_unary,
};
use crate::ir::opt::{same_block_code, same_block_layout, same_blocks_code, same_code, same_function_header, same_program_header};
use crate::ir::{
    BasicBlock, BlockId, BranchTerminator, ConstValue, Instr, IrFunction, IrProgram, IrType, Operand,
    TempId, Terminator, copy_const,
};

verus! {

broadcast use vstd::std_specs::hash::group_hash_axioms;

/// The known constants of temps, by temp id.
pub open spec fn const_map_view(m: Map<usize, ConstValue>) -> Map<usize, ConstV> {
    m.map_values(|c: ConstValue| cview(c))
}

/// The constant an operand denotes, given the known constants of temps.
pub open spec fn resolve(op: Operand, consts: Map<usize, ConstV>) -> Option<ConstV> {
    match op {
        Operand::Const(c) => Some(cview(c)),
        Operand::Temp(t) => if consts.contains_key(t.0) { Some(consts[t.0]) } else { None },
        _ => None,
    }
}

/// The constant that replaces an instruction, if folding replaces it.
pub open spec fn folded_value(instr: Instr, consts: Map<usize, ConstV>) -> Option<ConstV> {
    match instr {
        Instr::Copy { src, .. } => resolve(src, consts),
        Instr::Unary { op, operand, .. } => match resolve(operand, consts) {
            Some(v) => spec_eval_unary(op, v),
            None => None,
        },
        Instr::Binary { op, left, right, .. } => match (resolve(left, consts), resolve(right, consts)) {
            (Some(a), Some(b)) => spec_eval_binary(op, a, b),
            _ => None,
        },
        Instr::Compare { op, left, right, .. } => match (resolve(left, consts), resolve(right, consts)) {
            (Some(a), Some(b)) => match spec_eval_compare(op, a, b) {
                Some(r) => Some(ConstV::Bool(r)),
                None => None,
            },
            _ => None,
        },
        Instr::Logic { op, left, right, .. } => match (resolve(left, consts), resolve(right, consts)) {
            (Some(a), Some(b)) => match spec_eval_logic(op, a, b) {
                Some(r) => Some(ConstV::Bool(r)),
                None => None,
            },
            _ => None,
        },
        _ => None,
    }
}

/// The type of the constant that replaces a folded instruction.
pub open spec fn folded_type(instr: Instr) -> IrType {
    match instr {
        Instr::Copy { ty, .. } => ty,
        Instr::Unary { ty, .. } => ty,
        Instr::Binary { ty, .. } => ty,
        _ => IrType::Bool,
    }
}

/// The known constants after an instruction: a `Const` and a folded
/// instruction record their destination's constant; other instructions with
/// a destination, but calls, forget it.
pub open spec fn consts_step(instr: Instr, consts: Map<usize, ConstV>) -> Map<usize, ConstV> {
    match instr {
        Instr::Const { dst, value, .. } => consts.insert(dst.0, cview(value)),
        Instr::Copy { dst, .. } | Instr::Unary { dst, .. } | Instr::Binary { dst, .. }
        | Instr::Compare { dst, .. } | Instr::Logic { dst, .. } => match folded_value(instr, consts) {
            Some(v) => consts.insert(dst.0, v),
            None => consts.remove(dst.0),
        },
        Instr::LoadGlobal { dst, .. } | Instr::LoadLocal { dst, .. } | Instr::MakeArray { dst, .. }
        | Instr::MakeArrayRepeat { dst, .. } | Instr::VecNew { dst, .. } | Instr::VecLen { dst, .. }
        | Instr::ArrayGet { dst, .. } | Instr::VecGet { dst, .. } | Instr::VecDelete { dst, .. }
        | Instr::MakeStruct { dst, .. } | Instr::StructGet { dst, .. }
        | Instr::MakeClosure { dst, .. } => consts.remove(dst.0),
        _ => consts,
    }
}

/// The known constants before instruction `k` of a block.
pub open spec fn consts_at(instrs: Seq<Instr>, k: int) -> Map<usize, ConstV>
    decreases k,
{
    if k <= 0 {
        Map::empty()
    } else {
        consts_step(instrs[k - 1], consts_at(instrs, k - 1))
    }
}

/// The destination of a foldable instruction.
pub open spec fn fold_dst(instr: Instr) -> TempId {
    match instr {
        Instr::Copy { dst, .. } => dst,
        Instr::Unary { dst, .. } => dst,
        Instr::Binary { dst, .. } => dst,
        Instr::Compare { dst, .. } => dst,
        Instr::Logic { dst, .. } => dst,
        _ => TempId(0),
    }
}

/// `new` is what folding makes of `old` given the known constants.
pub open spec fn folds_to(old: Instr, consts: Map<usize, ConstV>, new: Instr) -> bool {
    match folded_value(old, consts) {
        None => new == old,
        Some(v) => new matches Instr::Const { dst, ty, value }
            && dst == fold_dst(old) && ty == folded_type(old) && cview(value) == v,
    }
}

/// The block target a branch is folded to, when its condition is a known boolean.
pub open spec fn folded_branch(term: Terminator, consts: Map<usize, ConstV>) -> Option<BlockId> {
    match term {
        Terminator::Branch(b) => match resolve(b.cond, consts) {
            Some(ConstV::Bool(c)) => Some(if c { b.then_block } else { b.else_block }),
            _ => None,
        },
        _ => None,
    }
}

/// `new` is what folding makes of the terminator `old`.
pub open spec fn terminator_folds_to(old: Terminator, consts: Map<usize, ConstV>, new: Terminator) -> bool {
    match folded_branch(old, consts) {
        None => new == old,
        Some(target) => new == Terminator::Jump(target),
    }
}

/// `new` is the folded form of block `old`.
pub open spec fn block_folds_to(old: BasicBlock, new: BasicBlock) -> bool {
    &&& new.id == old.id
    &&& new.name == old.name
    &&& new.instrs@.len() == old.instrs@.len()
    &&& forall|k: int| 0 <= k < old.instrs@.len()
        ==> folds_to(old.instrs@[k], consts_at(old.instrs@, k), #[trigger] new.instrs@[k])
    &&& terminator_folds_to(old.terminator, consts_at(old.instrs@, old.instrs@.len() as int), new.terminator)
}

/// Folding changes something in block `old`.
pub open spec fn block_folds(old: BasicBlock) -> bool {
    ||| exists|k: int| 0 <= k < old.instrs@.len()
        && (#[trigger] folded_value(old.instrs@[k], consts_at(old.instrs@, k))) is Some
    ||| folded_branch(old.terminator, consts_at(old.instrs@, old.instrs@.len() as int)) is Some
}

proof fn lemma_view_insert(m: Map<usize, ConstValue>, k: usize, v: ConstValue)
    ensures
        const_map_view(m.insert(k, v)) == const_map_view(m).insert(k, cview(v)),
{
    assert(const_map_view(m.insert(k, v)) =~= const_map_view(m).insert(k, cview(v)));
}

proof fn lemma_view_remove(m: Map<usize, ConstValue>, k: usize)
    ensures
        const_map_view(m.remove(k)) == const_map_view(m).remove(k),
{
    assert(const_map_view(m.remove(k)) =~= const_map_view(m).remove(k));
}

/// The constant an operand denotes, if known.
fn resolve_const(operand: &Operand, consts: &HashMapWithView<usize, ConstValue>) -> (r: Option<ConstValue>)
    ensures
        resolve(*operand, const_map_view(consts@)) == match r { Some(c) => Some(cview(c)), None => None },
{
    match operand {
        Operand::Const(value) => Some(copy_const(value)),
        Operand::Temp(id) => match consts.get(&id.0) {
            Some(v) => Some(copy_const(v)),
            None => None,
        },
        Operand::Local(_) | Operand::Global(_) => None,
    }
}

fn record(consts: &mut HashMapWithView<usize, ConstValue>, dst: TempId, folded: Option<ConstValue>)
    ensures
        const_map_view(final(consts)@) == match folded {
            Some(v) => const_map_view(old(consts)@).insert(dst.0, cview(v)),
            None => const_map_view(old(consts)@).remove(dst.0),
        },
{
    match folded {
        Some(v) => {
            proof {
                lemma_view_insert(consts@, dst.0, v);
            }
            consts.insert(dst.0, v);
        },
        None => {
            proof {
                lemma_view_remove(consts@, dst.0);
            }
            consts.remove(&dst.0);
        },
    }
}

/// The constant that replaces `instr` given the known constants, if any.
fn fold_value(instr: &Instr, consts: &HashMapWithView<usize, ConstValue>) -> (r: Option<ConstValue>)
    ensures
        folded_value(*instr, const_map_view(consts@)) == match r { Some(c) => Some(cview(c)), None => None },
{
    match instr {
        Instr::Copy { src, .. } => resolve_const(src, consts),
        Instr::Unary { op, operand, .. } => match resolve_const(operand, consts) {
            Some(v) => eval_unary(*op, &v),
            None => None,
        },
        Instr::Binary { op, left, right, .. } => {
            match (resolve_const(left, consts), resolve_const(right, consts)) {
                (Some(a), Some(b)) => eval_binary(*op, &a, &b),
                _ => None,
            }
        },
        Instr::Compare { op, left, right, .. } => {
            match (resolve_const(left, consts), resolve_const(right, consts)) {
                (Some(a), Some(b)) => match eval_compare(*op, &a, &b) {
                    Some(r) => Some(ConstValue::Bool(r)),
                    None => None,
                },
                _ => None,
            }
        },
        Instr::Logic { op, left, right, .. } => {
            match (resolve_const(left, consts), resolve_const(right, consts)) {
                (Some(a), Some(b)) => match eval_logic(*op, &a, &b) {
                    Some(r) => Some(ConstValue::Bool(r)),
                    None => None,
                },
                _ => None,
            }
        },
        _ => None,
    }
}

/// Folds one instruction in place given the known constants, and updates them.
/// Returns whether the instruction was replaced.
fn fold_instr(instr: &mut Instr, consts: &mut HashMapWithView<usize, ConstValue>) -> (changed: bool)
    ensures
        folds_to(*old(instr), const_map_view(old(consts)@), *final(instr)),
        const_map_view(final(consts)@) == consts_step(*old(instr), const_map_view(old(consts)@)),
        changed == folded_value(*old(instr), const_map_view(old(consts)@)) is Some,
{
    match &*instr {
        Instr::Const { dst, value, .. } => {
            let d = *dst;
            let v = copy_const(value);
            record(consts, d, Some(v));
            return false;
        },
        Instr::Copy { .. } | Instr::Unary { .. } | Instr::Binary { .. } | Instr::Compare { .. }
        | Instr::Logic { .. } => {},
        Instr::LoadGlobal { dst, .. } | Instr::LoadLocal { dst, .. } | Instr::MakeArray { dst, .. }
        | Instr::MakeArrayRepeat { dst, .. } | Instr::VecNew { dst, .. } | Instr::VecLen { dst, .. }
        | Instr::ArrayGet { dst, .. } | Instr::VecGet { dst, .. } | Instr::VecDelete { dst, .. }
        | Instr::MakeStruct { dst, .. } | Instr::StructGet { dst, .. }
        | Instr::MakeClosure { dst, .. } => {
            let d = *dst;
            record(consts, d, None);
            return false;
        },
        Instr::StoreGlobal { .. } | Instr::StoreLocal { .. } | Instr::ArraySet { .. }
        | Instr::VecPush { .. } | Instr::VecSet { .. } | Instr::StructSet { .. }
        | Instr::CallDirect { .. } | Instr::CallIndirect { .. } | Instr::CallBuiltin { .. } => {
            return false;
        },
    }
    let folded = fold_value(instr, consts);
    let d = match &*instr {
        Instr::Copy { dst, .. } | Instr::Unary { dst, .. } | Instr::Binary { dst, .. }
        | Instr::Compare { dst, .. } | Instr::Logic { dst, .. } => *dst,
        _ => TempId(0),
    };
    match folded {
        None => {
            record(consts, d, None);
            false
        },
        Some(value) => {
            let mut old_instr = Instr::VecNew { dst: TempId(0), elem_ty: IrType::Unknown };
            std::mem::swap(instr, &mut old_instr);
            let ty = match old_instr {
                Instr::Copy { ty, .. } => ty,
                Instr::Unary { ty, .. } => ty,
                Instr::Binary { ty, .. } => ty,
                _ => IrType::Bool,
            };
            let kept = copy_const(&value);
            *instr = Instr::Const { dst: d, ty, value };
            record(consts, d, Some(kept));
            true
        },
    }
}

/// Folds a branch on a known boolean into a jump.
fn fold_terminator(terminator: &mut Terminator, consts: &HashMapWithView<usize, ConstValue>) -> (changed: bool)
    ensures
        terminator_folds_to(*old(terminator), const_map_view(consts@), *final(terminator)),
        changed == folded_branch(*old(terminator), const_map_view(consts@)) is Some,
{
    let target = match &*terminator {
        Terminator::Branch(BranchTerminator { cond, then_block, else_block }) => {
            match resolve_const(cond, consts) {
                Some(ConstValue::Bool(c)) => Some(if c { *then_block } else { *else_block }),
                _ => None,
            }
        },
        Terminator::Jump(_) | Terminator::Return(_) | Terminator::Panic { .. }
        | Terminator::Unreachable => None,
    };
    match target {
        Some(t) => {
            *terminator = Terminator::Jump(t);
            true
        },
        None => false,
    }
}

/// Folds the constant computations of one block; returns whether anything changed.
pub fn run_block(block: &mut BasicBlock) -> (changed: bool)
    ensures
        block_folds_to(*old(block), *final(block)),
        changed == block_folds(*old(block)),
{
    let ghost orig = block.instrs@;
    let mut consts: HashMapWithView<usize, ConstValue> = HashMapWithView::new();
    assert(const_map_view(consts@) =~= consts_at(orig, 0));
    let mut changed = false;
    let mut k: usize = 0;
    while k < block.instrs.len()
        invariant
            k <= block.instrs@.len(),
            block.instrs@.len() == orig.len(),
            orig == old(block).instrs@,
            block.id == old(block).id,
            block.name == old(block).name,
            block.terminator == old(block).terminator,
            const_map_view(consts@) == consts_at(orig, k as int),
            forall|j: int| 0 <= j < k ==> folds_to(orig[j], consts_at(orig, j), #[trigger] block.instrs@[j]),
            forall|j: int| k <= j < orig.len() ==> #[trigger] block.instrs@[j] == orig[j],
            changed == exists|j: int| 0 <= j < k
                && (#[trigger] folded_value(orig[j], consts_at(orig, j))) is Some,
        decreases orig.len() - k,
    {
        let c = fold_instr(&mut block.instrs[k], &mut consts);
        changed = changed || c;
        k += 1;
    }
    let c = fold_terminator(&mut block.terminator, &consts);
    changed || c
}

/// Folds constants in one function; returns whether anything changed.
pub fn run_function(func: &mut IrFunction) -> (changed: bool)
    ensures
        same_function_header(*old(func), *final(func)),
        final(func).blocks@.len() == old(func).blocks@.len(),
        forall|k: int| 0 <= k < old(func).blocks@.len()
            ==> block_folds_to(old(func).blocks@[k], #[trigger] final(func).blocks@[k]),
        changed == exists|k: int| 0 <= k < old(func).blocks@.len()
            && block_folds(#[trigger] old(func).blocks@[k]),
{
    let mut changed = false;
    let mut k: usize = 0;
    while k < func.blocks.len()
        invariant
            k <= func.blocks@.len(),
            func.blocks@.len() == old(func).blocks@.len(),
            same_function_header(*old(func), *func),
            forall|j: int| 0 <= j < k ==> block_folds_to(old(func).blocks@[j], #[trigger] func.blocks@[j]),
            forall|j: int| k <= j < func.blocks@.len() ==> #[trigger] func.blocks@[j] == old(func).blocks@[j],
            changed == exists|j: int| 0 <= j < k && block_folds(#[trigger] old(func).blocks@[j]),
        decreases func.blocks@.len() - k,
    {
        let c = run_block(&mut func.blocks[k]);
        changed = changed || c;
        k += 1;
    }
    changed
}

/// Constant folding: in each block, replaces each copy, unary, arithmetic,
/// comparison or boolean operation whose operands are constants (directly, or
/// temps given a constant earlier in the block) by that constant, and turns a
/// branch on a known boolean into a jump. Returns whether anything changed.
/// The program `new` is what this pass makes of `old`.
pub open spec fn run_to(old: IrProgram, new: IrProgram) -> bool {
    &&& same_program_header(old, new)
    &&& forall|f: int| 0 <= f < old.functions@.len() ==> {
        let nf = #[trigger] new.functions@[f];
        let of = old.functions@[f];
        &&& nf.blocks@.len() == of.blocks@.len()
        &&& forall|k: int| 0 <= k < of.blocks@.len() ==> block_folds_to(of.blocks@[k], #[trigger] nf.blocks@[k])
    }
}

/// The pass, taking `old` to `new`, reports a change.
pub open spec fn run_changes(old: IrProgram, new: IrProgram) -> bool {
    exists|f: int, k: int| 0 <= f < old.functions@.len()
        && 0 <= k < old.functions@[f].blocks@.len()
        && block_folds(#[trigger] old.functions@[f].blocks@[k])
}

pub fn run(program: &mut IrProgram) -> (changed: bool)
    ensures
        same_program_header(*old(program), *final(program)),
        forall|f: int| 0 <= f < old(program).functions@.len() ==> {
            let nf = #[trigger] final(program).functions@[f];
            let of = old(program).functions@[f];
            &&& nf.blocks@.len() == of.blocks@.len()
            &&& forall|k: int| 0 <= k < of.blocks@.len() ==> block_folds_to(of.blocks@[k], #[trigger] nf.blocks@[k])
        },
        changed == exists|f: int, k: int| 0 <= f < old(program).functions@.len()
            && 0 <= k < old(program).functions@[f].blocks@.len()
            && block_folds(#[trigger] old(program).functions@[f].blocks@[k]),
{
    let mut changed = false;
    let mut f: usize = 0;
    while f < program.functions.len()
        invariant
            f <= program.functions@.len(),
            program.functions@.len() == old(program).functions@.len(),
            program.globals == old(program).globals,
            program.structs == old(program).structs,
            program.module_init == old(program).module_init,
            forall|i: int| 0 <= i < f ==> {
                let nf = #[trigger] program.functions@[i];
                let of = old(program).functions@[i];
                &&& same_function_header(of, nf)
                &&& nf.blocks@.len() == of.blocks@.len()
                &&& forall|k: int| 0 <= k < of.blocks@.len() ==> block_folds_to(of.blocks@[k], #[trigger] nf.blocks@[k])
            },
            forall|i: int| f <= i < program.functions@.len()
                ==> #[trigger] program.functions@[i] == old(program).functions@[i],
            changed == exists|i: int, k: int| 0 <= i < f
                && 0 <= k < old(program).functions@[i].blocks@.len()
                && block_folds(#[trigger] old(program).functions@[i].blocks@[k]),
        decreases program.functions@.len() - f,
    {
        let c = run_function(&mut program.functions[f]);
        changed = changed || c;
        f += 1;
    }
    changed
}


/// A run that reports no change leaves the code as it was.
pub proof fn lemma_quiet_run_keeps_code(old: IrProgram, new: IrProgram)
    requires
        run_to(old, new),
        !run_changes(old, new),
    ensures
        same_code(old, new),
{
    assert forall|f: int| 0 <= f < old.functions@.len()
        implies same_blocks_code((#[trigger] old.functions@[f]).blocks@, new.functions@[f].blocks@) by {
        let ob = old.functions@[f].blocks@;
        let nb = new.functions@[f].blocks@;
        assert forall|k: int| 0 <= k < ob.len() implies same_block_code(#[trigger] ob[k], nb[k]) by {
            assert(!block_folds(old.functions@[f].blocks@[k]));
            assert(block_folds_to(ob[k], nb[k]));
            assert forall|i: int| 0 <= i < ob[k].instrs@.len() implies nb[k].instrs@[i] == ob[k].instrs@[i] by {
                assert(folded_value(ob[k].instrs@[i], consts_at(ob[k].instrs@, i)) is None);
                assert(folds_to(ob[k].instrs@[i], consts_at(ob[k].instrs@, i), nb[k].instrs@[i]));
            }
            assert(nb[k].instrs@ =~= ob[k].instrs@);
        }
    }
}

/// Whether a run reports a change depends only on the code of the program.
pub proof fn lemma_changes_follow_code(a: IrProgram, a2: IrProgram, b: IrProgram, b2: IrProgram)
    requires
        same_code(a, a2),
    ensures
        run_changes(a, b) == run_changes(a2, b2),
{
    assert forall|f: int, k: int| 0 <= f < a.functions@.len() && 0 <= k < a.functions@[f].blocks@.len()
        implies block_folds(#[trigger] a.functions@[f].blocks@[k]) == block_folds(a2.functions@[f].blocks@[k]) by {
        assert(same_blocks_code(a.functions@[f].blocks@, a2.functions@[f].blocks@));
        assert(same_block_code(a.functions@[f].blocks@[k], a2.functions@[f].blocks@[k]));
    }
    if run_changes(a2, b2) {
        let (f, k) = choose|f: int, k: int| 0 <= f < a2.functions@.len()
            && 0 <= k < a2.functions@[f].blocks@.len() && block_folds(#[trigger] a2.functions@[f].blocks@[k]);
        assert(same_blocks_code(a.functions@[f].blocks@, a2.functions@[f].blocks@));
        assert(block_folds(a.functions@[f].blocks@[k]));
    }
}

} // verus!
