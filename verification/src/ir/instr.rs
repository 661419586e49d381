use vstd::prelude::*;

use crate::ir::{BlockId, ConstValue, FunctionId, GlobalId, IrType, LocalId, Operand, StructId, TempId};

verus! {

/// One-operand operators of the IR.
#[derive(Debug, Clone, Copy, PartialEq, Eq, Structural)]
pub enum UnaryOp {
    Neg,
    Not,
}

/// Arithmetic operators of the IR.
#[derive(Debug, Clone, Copy, PartialEq, Eq, Structural)]
pub enum BinaryOp {
    Add,
    Sub,
    Mul,
    Div,
    Mod,
}

/// Comparison operators of the IR.
#[derive(Debug, Clone, Copy, PartialEq, Eq, Structural)]
pub enum CmpOp {
    Eq,
    Ne,
    Lt,
    Le,
    Gt,
    Ge,
}

/// Boolean connectives of the IR.
#[derive(Debug, Clone, Copy, PartialEq, Eq, Structural)]
pub enum LogicOp {
    And,
    Or,
}

/// A struct field, by position and by name.
#[derive(Debug, Clone, PartialEq, Eq)]
pub struct FieldRef {
    pub index: usize,
    pub name: String,
}

/// A builtin addressed by package and name (`str.len`, `io.println`, ...).
#[derive(Debug, Clone, PartialEq, Eq)]
pub struct BuiltinCall {
    pub package: String,
    pub name: String,
}

/// A non-terminating instruction of a basic block.
#[derive(Debug, PartialEq)]
#[allow(inconsistent_fields)]
pub enum Instr {
    Const { dst: TempId, ty: IrType, value: ConstValue },
    Copy { dst: TempId, ty: IrType, src: Operand },
    Unary { dst: TempId, ty: IrType, op: UnaryOp, operand: Operand },
    Binary { dst: TempId, ty: IrType, op: BinaryOp, left: Operand, right: Operand },
    Compare { dst: TempId, op: CmpOp, left: Operand, right: Operand },
    Logic { dst: TempId, op: LogicOp, left: Operand, right: Operand },
    LoadGlobal { dst: TempId, ty: IrType, global: GlobalId },
    StoreGlobal { global: GlobalId, ty: IrType, value: Operand },
    LoadLocal { dst: TempId, ty: IrType, local: LocalId },
    StoreLocal { local: LocalId, ty: IrType, value: Operand },
    MakeArray { dst: TempId, elem_ty: IrType, items: Vec<Operand> },
    MakeArrayRepeat { dst: TempId, elem_ty: IrType, value: Operand, size: usize },
    VecNew { dst: TempId, elem_ty: IrType },
    VecLen { dst: TempId, vec: Operand },
    ArrayGet { dst: TempId, elem_ty: IrType, array: Operand, index: Operand },
    ArraySet { elem_ty: IrType, array: Operand, index: Operand, value: Operand },
    VecPush { vec: Operand, value: Operand },
    VecGet { dst: TempId, elem_ty: IrType, vec: Operand, index: Operand },
    VecSet { elem_ty: IrType, vec: Operand, index: Operand, value: Operand },
    VecDelete { dst: TempId, elem_ty: IrType, vec: Operand, index: Operand },
    MakeStruct { dst: TempId, struct_id: StructId, fields: Vec<Operand> },
    StructGet { dst: TempId, ty: IrType, base: Operand, field: FieldRef },
    StructSet { base: Operand, field: FieldRef, value: Operand, ty: IrType },
    MakeClosure { dst: TempId, function: FunctionId },
    CallDirect { dst: Option<TempId>, ret_ty: IrType, function: FunctionId, args: Vec<Operand> },
    CallIndirect { dst: Option<TempId>, ret_ty: IrType, callee: Operand, args: Vec<Operand> },
    CallBuiltin { dst: Option<TempId>, ret_ty: IrType, builtin: BuiltinCall, args: Vec<Operand> },
}

/// A two-way conditional branch.
#[derive(Debug, PartialEq)]
pub struct BranchTerminator {
    pub cond: Operand,
    pub then_block: BlockId,
    pub else_block: BlockId,
}

/// The instruction that ends a basic block.
#[derive(Debug, PartialEq)]
pub enum Terminator {
    Jump(BlockId),
    Branch(BranchTerminator),
    Return(Option<Operand>),
    Panic { message: String },
    Unreachable,
}

} // verus!
