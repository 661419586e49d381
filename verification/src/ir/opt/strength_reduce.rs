//! Algebraic simplification of arithmetic with identity and small constants.

use vstd::prelude::*;

use crate::ir::consts::{trunc_div, trunc_rem};
use crate::ir::opt::{same_block_code, same_block_layout, same_blocks_code, same_code, same_function_header, same_program_header};
use crate::ir::{
    BasicBlock, BinaryOp, ConstValue, Instr, IrFunction, IrProgram, IrType, Operand, TempId,
    copy_operand, copy_type, same_type,
};

verus! {

/// The encoding of the binary64 value `1.0`.
pub const FLOAT_ONE_BITS: u64 = 0x3FF0_0000_0000_0000;

/// The encoding of the binary64 value `-0.0`.
pub const FLOAT_NEG_ZERO_BITS: u64 = 0x8000_0000_0000_0000;

/// A constant integer or float zero operand (`0`, `0.0`, `-0.0`).
pub open spec fn is_zero(op: Operand) -> bool {
    op == Operand::Const(ConstValue::Int(0)) || op == Operand::Const(ConstValue::Float(0))
        || op == Operand::Const(ConstValue::Float(FLOAT_NEG_ZERO_BITS))
}

/// A constant integer or float one operand (`1`, `1.0`).
pub open spec fn is_one(op: Operand) -> bool {
    op == Operand::Const(ConstValue::Int(1)) || op == Operand::Const(ConstValue::Float(FLOAT_ONE_BITS))
}

/// The constant integer two operand.
pub open spec fn is_int_two(op: Operand) -> bool {
    op == Operand::Const(ConstValue::Int(2))
}

/// How an arithmetic instruction is simplified.
pub enum Reduction {
    /// becomes a copy of its left operand
    CopyLeft,
    /// becomes a copy of its right operand
    CopyRight,
    /// becomes its left operand added to itself
    DoubleLeft,
    /// becomes its right operand added to itself
    DoubleRight,
    /// becomes the integer constant 0
    Zero,
}

/// The simplification of `left op right`, if any: `x + 0`, `0 + x`, `x - 0`,
/// `x * 1`, `1 * x`, `x / 1` become `x`; `x * 2` and `2 * x` become `x + x`;
/// `x % 1` becomes `0` (integer 1 only).
pub open spec fn reduction(op: BinaryOp, left: Operand, right: Operand) -> Option<Reduction> {
    match op {
        BinaryOp::Add => if is_zero(right) {
            Some(Reduction::CopyLeft)
        } else if is_zero(left) {
            Some(Reduction::CopyRight)
        } else {
            None
        },
        BinaryOp::Sub => if is_zero(right) { Some(Reduction::CopyLeft) } else { None },
        BinaryOp::Mul => if is_one(right) {
            Some(Reduction::CopyLeft)
        } else if is_one(left) {
            Some(Reduction::CopyRight)
        } else if is_int_two(right) {
            Some(Reduction::DoubleLeft)
        } else if is_int_two(left) {
            Some(Reduction::DoubleRight)
        } else {
            None
        },
        BinaryOp::Div => if is_one(right) { Some(Reduction::CopyLeft) } else { None },
        BinaryOp::Mod => if right == Operand::Const(ConstValue::Int(1)) { Some(Reduction::Zero) } else { None },
    }
}

/// `new` is the simplified form of `dst: ty = left op right` by `kind`.
pub open spec fn reduced_as(new: Instr, dst: TempId, ty: IrType, left: Operand, right: Operand, kind: Reduction) -> bool {
    match kind {
        Reduction::CopyLeft => new matches Instr::Copy { dst: d, ty: t, src } && d == dst && same_type(t, ty) && src == left,
        Reduction::CopyRight => new matches Instr::Copy { dst: d, ty: t, src } && d == dst && same_type(t, ty) && src == right,
        Reduction::DoubleLeft => new matches Instr::Binary { dst: d, ty: t, op, left: l, right: r }
            && d == dst && same_type(t, ty) && op == BinaryOp::Add && l == left && r == left,
        Reduction::DoubleRight => new matches Instr::Binary { dst: d, ty: t, op, left: l, right: r }
            && d == dst && same_type(t, ty) && op == BinaryOp::Add && l == right && r == right,
        Reduction::Zero => new matches Instr::Const { dst: d, ty: t, value } && d == dst && same_type(t, ty)
            && value == ConstValue::Int(0),
    }
}

/// `new` is what strength reduction makes of `old`.
pub open spec fn reduces_to(old: Instr, new: Instr) -> bool {
    match old {
        Instr::Binary { dst, ty, op, left, right } => match reduction(op, left, right) {
            Some(kind) => reduced_as(new, dst, ty, left, right, kind),
            None => new == old,
        },
        _ => new == old,
    }
}

/// Strength reduction rewrites `instr`.
pub open spec fn reducible(instr: Instr) -> bool {
    instr matches Instr::Binary { op, left, right, .. } && reduction(op, left, right) is Some
}

fn operand_is_zero(op: &Operand) -> (r: bool)
    ensures
        r == is_zero(*op),
{
    match op {
        Operand::Const(ConstValue::Int(v)) => *v == 0,
        Operand::Const(ConstValue::Float(v)) => *v == 0 || *v == FLOAT_NEG_ZERO_BITS,
        _ => false,
    }
}

fn operand_is_one(op: &Operand) -> (r: bool)
    ensures
        r == is_one(*op),
{
    match op {
        Operand::Const(ConstValue::Int(v)) => *v == 1,
        Operand::Const(ConstValue::Float(v)) => *v == FLOAT_ONE_BITS,
        _ => false,
    }
}

fn operand_is_int(op: &Operand, n: i64) -> (r: bool)
    ensures
        r == (*op == Operand::Const(ConstValue::Int(n))),
{
    match op {
        Operand::Const(ConstValue::Int(v)) => *v == n,
        _ => false,
    }
}

fn copy_of(dst: TempId, ty: &IrType, src: &Operand) -> (r: Instr)
    ensures
        r matches Instr::Copy { dst: d, ty: t, src: s } && d == dst && same_type(t, *ty) && s == *src,
{
    Instr::Copy { dst, ty: copy_type(ty), src: copy_operand(src) }
}

fn double_of(dst: TempId, ty: &IrType, src: &Operand) -> (r: Instr)
    ensures
        r matches Instr::Binary { dst: d, ty: t, op, left: l, right: rr } && d == dst && same_type(t, *ty)
            && op == BinaryOp::Add && l == *src && rr == *src,
{
    Instr::Binary { dst, ty: copy_type(ty), op: BinaryOp::Add, left: copy_operand(src), right: copy_operand(src) }
}

/// Simplifies `left + right` with a zero operand.
pub fn reduce_add(dst: TempId, ty: &IrType, left: &Operand, right: &Operand) -> (r: Option<Instr>)
    ensures
        match reduction(BinaryOp::Add, *left, *right) {
            Some(kind) => r matches Some(n) && reduced_as(n, dst, *ty, *left, *right, kind),
            None => r is None,
        },
{
    if operand_is_zero(right) {
        Some(copy_of(dst, ty, left))
    } else if operand_is_zero(left) {
        Some(copy_of(dst, ty, right))
    } else {
        None
    }
}

/// Simplifies `left - right` with a zero right operand.
pub fn reduce_sub(dst: TempId, ty: &IrType, left: &Operand, right: &Operand) -> (r: Option<Instr>)
    ensures
        match reduction(BinaryOp::Sub, *left, *right) {
            Some(kind) => r matches Some(n) && reduced_as(n, dst, *ty, *left, *right, kind),
            None => r is None,
        },
{
    if operand_is_zero(right) {
        Some(copy_of(dst, ty, left))
    } else {
        None
    }
}

/// Simplifies `left * right` with a one or two operand.
pub fn reduce_mul(dst: TempId, ty: &IrType, left: &Operand, right: &Operand) -> (r: Option<Instr>)
    ensures
        match reduction(BinaryOp::Mul, *left, *right) {
            Some(kind) => r matches Some(n) && reduced_as(n, dst, *ty, *left, *right, kind),
            None => r is None,
        },
{
    if operand_is_one(right) {
        Some(copy_of(dst, ty, left))
    } else if operand_is_one(left) {
        Some(copy_of(dst, ty, right))
    } else if operand_is_int(right, 2) {
        Some(double_of(dst, ty, left))
    } else if operand_is_int(left, 2) {
        Some(double_of(dst, ty, right))
    } else {
        None
    }
}

/// Simplifies `left / right` with a one right operand.
pub fn reduce_div(dst: TempId, ty: &IrType, left: &Operand, right: &Operand) -> (r: Option<Instr>)
    ensures
        match reduction(BinaryOp::Div, *left, *right) {
            Some(kind) => r matches Some(n) && reduced_as(n, dst, *ty, *left, *right, kind),
            None => r is None,
        },
{
    if operand_is_one(right) {
        Some(copy_of(dst, ty, left))
    } else {
        None
    }
}

/// Simplifies `left % 1` to `0`.
pub fn reduce_mod(dst: TempId, ty: &IrType, left: &Operand, right: &Operand) -> (r: Option<Instr>)
    ensures
        match reduction(BinaryOp::Mod, *left, *right) {
            Some(kind) => r matches Some(n) && reduced_as(n, dst, *ty, *left, *right, kind),
            None => r is None,
        },
{
    if operand_is_int(right, 1) {
        Some(Instr::Const { dst, ty: copy_type(ty), value: ConstValue::Int(0) })
    } else {
        None
    }
}

/// The simplified form of an instruction, if strength reduction applies.
pub fn reduce_instr(instr: &Instr) -> (r: Option<Instr>)
    ensures
        match r {
            Some(n) => reducible(*instr) && reduces_to(*instr, n),
            None => !reducible(*instr),
        },
{
    match instr {
        Instr::Binary { dst, ty, op: BinaryOp::Add, left, right } => reduce_add(*dst, ty, left, right),
        Instr::Binary { dst, ty, op: BinaryOp::Sub, left, right } => reduce_sub(*dst, ty, left, right),
        Instr::Binary { dst, ty, op: BinaryOp::Mul, left, right } => reduce_mul(*dst, ty, left, right),
        Instr::Binary { dst, ty, op: BinaryOp::Div, left, right } => reduce_div(*dst, ty, left, right),
        Instr::Binary { dst, ty, op: BinaryOp::Mod, left, right } => reduce_mod(*dst, ty, left, right),
        _ => None,
    }
}

/// `new` is the strength-reduced form of block `old`.
pub open spec fn block_reduces_to(old: BasicBlock, new: BasicBlock) -> bool {
    &&& new.id == old.id
    &&& new.name == old.name
    &&& new.terminator == old.terminator
    &&& new.instrs@.len() == old.instrs@.len()
    &&& forall|k: int| 0 <= k < old.instrs@.len() ==> reduces_to(old.instrs@[k], #[trigger] new.instrs@[k])
}

/// Some instruction of block `old` is strength-reduced.
pub open spec fn block_reduces(old: BasicBlock) -> bool {
    exists|k: int| 0 <= k < old.instrs@.len() && reducible(#[trigger] old.instrs@[k])
}

/// Simplifies the arithmetic of one block; returns whether anything changed.
pub fn run_block(block: &mut BasicBlock) -> (changed: bool)
    ensures
        block_reduces_to(*old(block), *final(block)),
        changed == block_reduces(*old(block)),
{
    let ghost orig = block.instrs@;
    let mut changed = false;
    let mut k: usize = 0;
    while k < block.instrs.len()
        invariant
            k <= block.instrs@.len(),
            block.instrs@.len() == orig.len(),
            orig == old(block).instrs@,
            block.id == old(block).id,
            block.name == old(block).name,
            block.terminator == old(block).terminator,
            forall|j: int| 0 <= j < k ==> reduces_to(orig[j], #[trigger] block.instrs@[j]),
            forall|j: int| k <= j < orig.len() ==> #[trigger] block.instrs@[j] == orig[j],
            changed == exists|j: int| 0 <= j < k && reducible(#[trigger] orig[j]),
        decreases orig.len() - k,
    {
        let replacement = reduce_instr(&block.instrs[k]);
        if let Some(new_instr) = replacement {
            block.instrs.set(k, new_instr);
            changed = true;
        }
        k += 1;
    }
    changed
}

/// Strength-reduces one function; returns whether anything changed.
pub fn run_function(func: &mut IrFunction) -> (changed: bool)
    ensures
        same_function_header(*old(func), *final(func)),
        final(func).blocks@.len() == old(func).blocks@.len(),
        forall|k: int| 0 <= k < old(func).blocks@.len()
            ==> block_reduces_to(old(func).blocks@[k], #[trigger] final(func).blocks@[k]),
        changed == exists|k: int| 0 <= k < old(func).blocks@.len() && block_reduces(#[trigger] old(func).blocks@[k]),
{
    let mut changed = false;
    let mut k: usize = 0;
    while k < func.blocks.len()
        invariant
            k <= func.blocks@.len(),
            func.blocks@.len() == old(func).blocks@.len(),
            same_function_header(*old(func), *func),
            forall|j: int| 0 <= j < k ==> block_reduces_to(old(func).blocks@[j], #[trigger] func.blocks@[j]),
            forall|j: int| k <= j < func.blocks@.len() ==> #[trigger] func.blocks@[j] == old(func).blocks@[j],
            changed == exists|j: int| 0 <= j < k && block_reduces(#[trigger] old(func).blocks@[j]),
        decreases func.blocks@.len() - k,
    {
        let c = run_block(&mut func.blocks[k]);
        changed = changed || c;
        k += 1;
    }
    changed
}

/// Strength reduction: rewrites `x + 0`, `0 + x`, `x - 0`, `x * 1`, `1 * x`
/// and `x / 1` into a copy of `x`, `x * 2` and `2 * x` into `x + x`, and
/// `x % 1` into the constant `0`. Returns whether anything changed.
/// The program `new` is what this pass makes of `old`.
pub open spec fn run_to(old: IrProgram, new: IrProgram) -> bool {
    &&& same_program_header(old, new)
    &&& forall|f: int| 0 <= f < old.functions@.len() ==> {
        let nf = #[trigger] new.functions@[f];
        let of = old.functions@[f];
        &&& nf.blocks@.len() == of.blocks@.len()
        &&& forall|k: int| 0 <= k < of.blocks@.len() ==> block_reduces_to(of.blocks@[k], #[trigger] nf.blocks@[k])
    }
}

/// The pass, taking `old` to `new`, reports a change.
pub open spec fn run_changes(old: IrProgram, new: IrProgram) -> bool {
    exists|f: int, k: int| 0 <= f < old.functions@.len()
        && 0 <= k < old.functions@[f].blocks@.len()
        && block_reduces(#[trigger] old.functions@[f].blocks@[k])
}

pub fn run(program: &mut IrProgram) -> (changed: bool)
    ensures
        same_program_header(*old(program), *final(program)),
        forall|f: int| 0 <= f < old(program).functions@.len() ==> {
            let nf = #[trigger] final(program).functions@[f];
            let of = old(program).functions@[f];
            &&& nf.blocks@.len() == of.blocks@.len()
            &&& forall|k: int| 0 <= k < of.blocks@.len() ==> block_reduces_to(of.blocks@[k], #[trigger] nf.blocks@[k])
        },
        changed == exists|f: int, k: int| 0 <= f < old(program).functions@.len()
            && 0 <= k < old(program).functions@[f].blocks@.len()
            && block_reduces(#[trigger] old(program).functions@[f].blocks@[k]),
{
    let mut changed = false;
    let mut f: usize = 0;
    while f < program.functions.len()
        invariant
            f <= program.functions@.len(),
            program.functions@.len() == old(program).functions@.len(),
            program.globals == old(program).globals,
            program.structs == old(program).structs,
            program.module_init == old(program).module_init,
            forall|i: int| 0 <= i < f ==> {
                let nf = #[trigger] program.functions@[i];
                let of = old(program).functions@[i];
                &&& same_function_header(of, nf)
                &&& nf.blocks@.len() == of.blocks@.len()
                &&& forall|k: int| 0 <= k < of.blocks@.len() ==> block_reduces_to(of.blocks@[k], #[trigger] nf.blocks@[k])
            },
            forall|i: int| f <= i < program.functions@.len()
                ==> #[trigger] program.functions@[i] == old(program).functions@[i],
            changed == exists|i: int, k: int| 0 <= i < f
                && 0 <= k < old(program).functions@[i].blocks@.len()
                && block_reduces(#[trigger] old(program).functions@[i].blocks@[k]),
        decreases program.functions@.len() - f,
    {
        let c = run_function(&mut program.functions[f]);
        changed = changed || c;
        f += 1;
    }
    changed
}


/// A run that reports no change leaves the code as it was.
pub proof fn lemma_quiet_run_keeps_code(old: IrProgram, new: IrProgram)
    requires
        run_to(old, new),
        !run_changes(old, new),
    ensures
        same_code(old, new),
{
    assert forall|f: int| 0 <= f < old.functions@.len()
        implies same_blocks_code((#[trigger] old.functions@[f]).blocks@, new.functions@[f].blocks@) by {
        let ob = old.functions@[f].blocks@;
        let nb = new.functions@[f].blocks@;
        assert forall|k: int| 0 <= k < ob.len() implies same_block_code(#[trigger] ob[k], nb[k]) by {
            assert(!block_reduces(old.functions@[f].blocks@[k]));
            assert(block_reduces_to(ob[k], nb[k]));
            assert forall|i: int| 0 <= i < ob[k].instrs@.len() implies nb[k].instrs@[i] == ob[k].instrs@[i] by {
                assert(!reducible(ob[k].instrs@[i]));
                assert(reduces_to(ob[k].instrs@[i], nb[k].instrs@[i]));
            }
            assert(nb[k].instrs@ =~= ob[k].instrs@);
        }
    }
}

/// Whether a run reports a change depends only on the code of the program.
pub proof fn lemma_changes_follow_code(a: IrProgram, a2: IrProgram, b: IrProgram, b2: IrProgram)
    requires
        same_code(a, a2),
    ensures
        run_changes(a, b) == run_changes(a2, b2),
{
    assert forall|f: int, k: int| 0 <= f < a.functions@.len() && 0 <= k < a.functions@[f].blocks@.len()
        implies block_reduces(#[trigger] a.functions@[f].blocks@[k]) == block_reduces(a2.functions@[f].blocks@[k]) by {
        assert(same_blocks_code(a.functions@[f].blocks@, a2.functions@[f].blocks@));
        assert(same_block_code(a.functions@[f].blocks@[k], a2.functions@[f].blocks@[k]));
    }
    if run_changes(a2, b2) {
        let (f, k) = choose|f: int, k: int| 0 <= f < a2.functions@.len()
            && 0 <= k < a2.functions@[f].blocks@.len() && block_reduces(#[trigger] a2.functions@[f].blocks@[k]);
        assert(same_blocks_code(a.functions@[f].blocks@, a2.functions@[f].blocks@));
        assert(block_reduces(a.functions@[f].blocks@[k]));
    }
}


/// The integer value of an operand where the temps, locals and globals hold
/// the integers `env` gives them: an integer constant's own value; none for
/// another constant.
pub open spec fn int_operand(op: Operand, env: spec_fn(Operand) -> int) -> Option<int> {
    match op {
        Operand::Const(ConstValue::Int(c)) => Some(c as int),
        Operand::Const(_) => None,
        _ => Some(env(op)),
    }
}

/// The integer an instruction computes where the operands hold integers as
/// `env` says: integer arithmetic (division and remainder truncating, and
/// none by zero), a copy, or an integer constant; none for anything else.
pub open spec fn int_result(instr: Instr, env: spec_fn(Operand) -> int) -> Option<int> {
    match instr {
        Instr::Binary { op, left, right, .. } => match (int_operand(left, env), int_operand(right, env)) {
            (Some(a), Some(b)) => match op {
                BinaryOp::Add => Some(a + b),
                BinaryOp::Sub => Some(a - b),
                BinaryOp::Mul => Some(a * b),
                BinaryOp::Div => if b == 0 { None } else { Some(trunc_div(a, b)) },
                BinaryOp::Mod => if b == 0 { None } else { Some(trunc_rem(a, b)) },
            },
            _ => None,
        },
        Instr::Copy { src, .. } => int_operand(src, env),
        Instr::Const { value: ConstValue::Int(c), .. } => Some(c as int),
        _ => None,
    }
}

/// The destination temp of an instruction that has one.
pub open spec fn result_temp(instr: Instr) -> Option<TempId> {
    match instr {
        Instr::Binary { dst, .. } | Instr::Copy { dst, .. } | Instr::Const { dst, .. } => Some(dst),
        _ => None,
    }
}

/// Strength reduction keeps what each instruction computes: wherever the
/// original computes an integer, the rewritten instruction computes the same
/// integer into the same temp, whatever integers the operands hold.
pub proof fn lemma_reduction_keeps_value(old: Instr, new: Instr, env: spec_fn(Operand) -> int)
    requires
        reduces_to(old, new),
        int_result(old, env) is Some,
    ensures
        int_result(new, env) == int_result(old, env),
        result_temp(new) == result_temp(old),
{
    match old {
        Instr::Binary { dst, ty, op, left, right } => {
            let a = int_operand(left, env)->Some_0;
            let b = int_operand(right, env)->Some_0;
            assert(a * 1 == a) by (nonlinear_arith);
            assert(1 * b == b) by (nonlinear_arith);
            assert(a * 2 == a + a) by (nonlinear_arith);
            assert(2 * b == b + b) by (nonlinear_arith);
            assert(a * 0 == 0) by (nonlinear_arith);
            assert(trunc_div(a, 1) == a);
            assert(trunc_rem(a, 1) == 0);
        },
        _ => {},
    }
}

} // verus!
