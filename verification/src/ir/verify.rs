//! Well-formedness checks of IR programs: ids are unique, every block target,
//! temp, local, global, function, struct and field that is named exists, and
//! the declared types of instructions, operands and returns agree.

use vstd::prelude::*;

use crate::ir::cfg::{find_block, lemma_find_block, position_of_block};
use crate::ir::{
    BasicBlock, BinaryOp, BlockId, CmpOp, ConstValue, FieldRef, FunctionId, GlobalId, Instr, IrFunction,
    IrGlobal, IrLocal, IrParam, IrProgram, IrStruct, IrTemp, IrType, LocalId, Operand, StructField,
    LogicOp, StructId, TempId, Terminator, UnaryOp,
};
use crate::text::text_eq;

verus! {

/// Why an IR program is malformed; `function` names the function concerned,
/// `block` the block, `field` the field.
#[derive(Debug, Clone, PartialEq, Eq)]
pub enum IrVerifyError {
    MissingEntryBlock { function: String },
    DuplicateBlockId { function: String },
    DuplicateParamId { function: String },
    DuplicateLocalId { function: String },
    DuplicateTempId { function: String },
    MissingTerminator { function: String, block: String },
    UnknownBlockTarget { function: String, block: String },
    UnknownTemp { function: String },
    UnknownLocal { function: String },
    UnknownGlobal,
    UnknownFunctionTarget { function: String },
    UnknownStruct { function: String },
    UnknownField { function: String, field: String },
    BadCallSignature { function: String },
    ReturnTypeMismatch { function: String },
    OperandTypeMismatch { function: String },
    UnknownModuleInitFunction,
}

/// The kind of a verification failure, with the block or field name where one is reported.
pub enum Failure {
    MissingEntryBlock,
    DuplicateBlockId,
    DuplicateParamId,
    DuplicateLocalId,
    DuplicateTempId,
    MissingTerminator(Seq<char>),
    UnknownBlockTarget(Seq<char>),
    UnknownTemp,
    UnknownLocal,
    UnknownGlobal,
    UnknownFunctionTarget,
    UnknownStruct,
    UnknownField(Seq<char>),
    BadCallSignature,
    ReturnTypeMismatch,
    OperandTypeMismatch,
    UnknownModuleInitFunction,
}

/// `e` reports failure `f` in the function named `function`.
pub open spec fn reports(e: IrVerifyError, f: Failure, function: Seq<char>) -> bool {
    match f {
        Failure::MissingEntryBlock => e matches IrVerifyError::MissingEntryBlock { function: n } && n@ == function,
        Failure::DuplicateBlockId => e matches IrVerifyError::DuplicateBlockId { function: n } && n@ == function,
        Failure::DuplicateParamId => e matches IrVerifyError::DuplicateParamId { function: n } && n@ == function,
        Failure::DuplicateLocalId => e matches IrVerifyError::DuplicateLocalId { function: n } && n@ == function,
        Failure::DuplicateTempId => e matches IrVerifyError::DuplicateTempId { function: n } && n@ == function,
        Failure::MissingTerminator(b) => e matches IrVerifyError::MissingTerminator { function: n, block: m }
            && n@ == function && m@ == b,
        Failure::UnknownBlockTarget(b) => e matches IrVerifyError::UnknownBlockTarget { function: n, block: m }
            && n@ == function && m@ == b,
        Failure::UnknownTemp => e matches IrVerifyError::UnknownTemp { function: n } && n@ == function,
        Failure::UnknownLocal => e matches IrVerifyError::UnknownLocal { function: n } && n@ == function,
        Failure::UnknownGlobal => e is UnknownGlobal,
        Failure::UnknownFunctionTarget => e matches IrVerifyError::UnknownFunctionTarget { function: n } && n@ == function,
        Failure::UnknownStruct => e matches IrVerifyError::UnknownStruct { function: n } && n@ == function,
        Failure::UnknownField(x) => e matches IrVerifyError::UnknownField { function: n, field: m }
            && n@ == function && m@ == x,
        Failure::BadCallSignature => e matches IrVerifyError::BadCallSignature { function: n } && n@ == function,
        Failure::ReturnTypeMismatch => e matches IrVerifyError::ReturnTypeMismatch { function: n } && n@ == function,
        Failure::OperandTypeMismatch => e matches IrVerifyError::OperandTypeMismatch { function: n } && n@ == function,
        Failure::UnknownModuleInitFunction => e is UnknownModuleInitFunction,
    }
}

/// `r` is the result owed for the outcome `f` of a check in the function named `name`.
pub open spec fn outcome(r: Result<(), IrVerifyError>, f: Option<Failure>, name: Seq<char>) -> bool {
    match f {
        None => r is Ok,
        Some(f) => r matches Err(e) && reports(e, f, name),
    }
}

/// The first of two check outcomes that is a failure.
pub open spec fn first_of(a: Option<Failure>, b: Option<Failure>) -> Option<Failure> {
    match a {
        Some(f) => Some(f),
        None => b,
    }
}

/// A failure exactly when `bad` holds.
pub open spec fn fails_if(bad: bool, f: Failure) -> Option<Failure> {
    if bad { Some(f) } else { None }
}

/// The first element of `s` that satisfies `p`.
pub open spec fn first_match<A>(s: Seq<A>, p: spec_fn(A) -> bool) -> Option<A>
    decreases s.len(),
{
    if s.len() == 0 {
        None
    } else if p(s[0]) {
        Some(s[0])
    } else {
        first_match(s.drop_first(), p)
    }
}

/// The test that a temp has id `id`.
pub open spec fn temp_id_is(id: TempId) -> spec_fn(IrTemp) -> bool {
    |t: IrTemp| t.id == id
}

/// The test that a local has id `id`.
pub open spec fn local_id_is(id: LocalId) -> spec_fn(IrLocal) -> bool {
    |l: IrLocal| l.id == id
}

/// The test that a global has id `id`.
pub open spec fn global_id_is(id: GlobalId) -> spec_fn(IrGlobal) -> bool {
    |g: IrGlobal| g.id == id
}

/// The test that a function has id `id`.
pub open spec fn function_id_is(id: FunctionId) -> spec_fn(IrFunction) -> bool {
    |f: IrFunction| f.id == id
}

/// The test that a struct has id `id`.
pub open spec fn struct_id_is(id: StructId) -> spec_fn(IrStruct) -> bool {
    |s: IrStruct| s.id == id
}

/// The test that a struct is named `name`.
pub open spec fn struct_name_is(name: Seq<char>) -> spec_fn(IrStruct) -> bool {
    |s: IrStruct| s.name@ == name
}

/// The test that a field is named `name`.
pub open spec fn field_name_is(name: Seq<char>) -> spec_fn(StructField) -> bool {
    |f: StructField| f.name@ == name
}

/// The first temp of `func` with id `id`.
pub open spec fn temp_of(func: IrFunction, id: TempId) -> Option<IrTemp> {
    first_match(func.temps@, temp_id_is(id))
}

/// The first local of `func` with id `id`.
pub open spec fn local_of(func: IrFunction, id: LocalId) -> Option<IrLocal> {
    first_match(func.locals@, local_id_is(id))
}

/// The first global of `program` with id `id`.
pub open spec fn global_of(program: IrProgram, id: GlobalId) -> Option<IrGlobal> {
    first_match(program.globals@, global_id_is(id))
}

/// The first function of `program` with id `id`.
pub open spec fn function_of(program: IrProgram, id: FunctionId) -> Option<IrFunction> {
    first_match(program.functions@, function_id_is(id))
}

/// The first struct of `program` with id `id`.
pub open spec fn struct_of(program: IrProgram, id: StructId) -> Option<IrStruct> {
    first_match(program.structs@, struct_id_is(id))
}

/// The first struct of `program` named `name`.
pub open spec fn struct_named(program: IrProgram, name: Seq<char>) -> Option<IrStruct> {
    first_match(program.structs@, struct_name_is(name))
}

/// The first field of `fields` named `name`.
pub open spec fn field_named(fields: Seq<StructField>, name: Seq<char>) -> Option<StructField> {
    first_match(fields, field_name_is(name))
}

/// Two types agree: `Unknown` agrees with every type; otherwise the shapes
/// match, with agreeing element, parameter and return types, equal array
/// sizes and equal names.
pub open spec fn compatible_types(a: IrType, b: IrType) -> bool
    decreases a,
{
    match (a, b) {
        (IrType::Unknown, _) => true,
        (_, IrType::Unknown) => true,
        (IrType::Array { elem: e1, size: s1 }, IrType::Array { elem: e2, size: s2 }) =>
            s1 == s2 && compatible_types(*e1, *e2),
        (IrType::Vec { elem: e1 }, IrType::Vec { elem: e2 }) => compatible_types(*e1, *e2),
        (IrType::Fn { params: p1, ret: r1 }, IrType::Fn { params: p2, ret: r2 }) =>
            p1@.len() == p2@.len()
            && (forall|i: int| 0 <= i < p1@.len() ==> compatible_types(#[trigger] p1@[i], p2@[i]))
            && compatible_types(*r1, *r2),
        (IrType::Int, IrType::Int) => true,
        (IrType::Float, IrType::Float) => true,
        (IrType::Bool, IrType::Bool) => true,
        (IrType::String, IrType::String) => true,
        (IrType::Void, IrType::Void) => true,
        (IrType::Named(x), IrType::Named(y)) => x@ == y@,
        _ => false,
    }
}

/// The type of a constant.
pub open spec fn const_type(c: ConstValue) -> IrType {
    match c {
        ConstValue::Int(_) => IrType::Int,
        ConstValue::Float(_) => IrType::Float,
        ConstValue::Bool(_) => IrType::Bool,
        ConstValue::String(_) => IrType::String,
        ConstValue::Unit => IrType::Void,
    }
}

/// The type of an operand: a constant's own type, or the declared type of the
/// temp, local or global it names; none where it names nothing.
pub open spec fn operand_type(program: IrProgram, func: IrFunction, op: Operand) -> Option<IrType> {
    match op {
        Operand::Const(c) => Some(const_type(c)),
        Operand::Temp(id) => match temp_of(func, id) { Some(t) => Some(t.ty), None => None },
        Operand::Local(id) => match local_of(func, id) { Some(l) => Some(l.ty), None => None },
        Operand::Global(id) => match global_of(program, id) { Some(g) => Some(g.ty), None => None },
    }
}

/// The element type of an array or vector operand; `Unknown` for any other operand.
pub open spec fn container_elem(program: IrProgram, func: IrFunction, op: Operand) -> IrType {
    match operand_type(program, func, op) {
        Some(IrType::Array { elem, .. }) => *elem,
        Some(IrType::Vec { elem }) => *elem,
        _ => IrType::Unknown,
    }
}

/// The declared type of `field` in the struct that `base`'s named type denotes.
pub open spec fn field_type(program: IrProgram, func: IrFunction, base: Operand, field: FieldRef) -> Option<IrType> {
    match operand_type(program, func, base) {
        Some(IrType::Named(n)) => match struct_named(program, n@) {
            Some(s) => match field_named(s.fields@, field.name@) {
                Some(f) => Some(f.ty),
                None => None,
            },
            None => None,
        },
        _ => None,
    }
}

/// Why an operand does not resolve, if it does not.
pub open spec fn operand_failure(program: IrProgram, func: IrFunction, op: Operand) -> Option<Failure> {
    match op {
        Operand::Const(_) => None,
        Operand::Temp(id) => fails_if(temp_of(func, id) is None, Failure::UnknownTemp),
        Operand::Local(id) => fails_if(local_of(func, id) is None, Failure::UnknownLocal),
        Operand::Global(id) => fails_if(global_of(program, id) is None, Failure::UnknownGlobal),
    }
}

/// The first failure among operands `ops`.
pub open spec fn operands_failure(program: IrProgram, func: IrFunction, ops: Seq<Operand>) -> Option<Failure>
    decreases ops.len(),
{
    if ops.len() == 0 {
        None
    } else {
        first_of(operands_failure(program, func, ops.drop_last()), operand_failure(program, func, ops.last()))
    }
}

/// A temp `id` must exist and its declared type agree with `ty`.
pub open spec fn temp_type_failure(func: IrFunction, id: TempId, ty: IrType) -> Option<Failure> {
    match temp_of(func, id) {
        None => Some(Failure::UnknownTemp),
        Some(t) => fails_if(!compatible_types(t.ty, ty), Failure::OperandTypeMismatch),
    }
}

/// An operand whose type is known must have a type that agrees with `ty`.
pub open spec fn operand_type_failure(program: IrProgram, func: IrFunction, op: Operand, ty: IrType) -> Option<Failure> {
    match operand_type(program, func, op) {
        Some(t) => fails_if(!compatible_types(t, ty), Failure::OperandTypeMismatch),
        None => None,
    }
}

/// A field of a base of named type must name a declared struct that has a field of that name.
pub open spec fn field_ref_failure(program: IrProgram, func: IrFunction, base: Operand, field: FieldRef) -> Option<Failure> {
    match operand_type(program, func, base) {
        Some(IrType::Named(n)) => match struct_named(program, n@) {
            None => Some(Failure::UnknownStruct),
            Some(s) => fails_if(field_named(s.fields@, field.name@) is None, Failure::UnknownField(field.name@)),
        },
        _ => None,
    }
}

/// A call's declared result type must agree with the callee's, and its destination temp with it.
pub open spec fn call_dest_failure(func: IrFunction, dst: Option<TempId>, ret_ty: IrType, target_ret: IrType) -> Option<Failure> {
    if !compatible_types(ret_ty, target_ret) {
        Some(Failure::BadCallSignature)
    } else {
        match dst {
            Some(d) => temp_type_failure(func, d, ret_ty),
            None => None,
        }
    }
}

/// Each operand in turn resolves and has a type that agrees with the matching type of `tys`.
pub open spec fn paired_failure(program: IrProgram, func: IrFunction, ops: Seq<Operand>, tys: Seq<IrType>) -> Option<Failure>
    decreases ops.len(),
{
    if ops.len() == 0 {
        None
    } else {
        first_of(operand_failure(program, func, ops[0]),
            first_of(operand_type_failure(program, func, ops[0], tys[0]),
                paired_failure(program, func, ops.drop_first(), tys.drop_first())))
    }
}

/// Each operand in turn has a type that agrees with the matching type of `tys`.
pub open spec fn typed_failure(program: IrProgram, func: IrFunction, ops: Seq<Operand>, tys: Seq<IrType>) -> Option<Failure>
    decreases ops.len(),
{
    if ops.len() == 0 {
        None
    } else {
        first_of(operand_type_failure(program, func, ops[0], tys[0]),
            typed_failure(program, func, ops.drop_first(), tys.drop_first()))
    }
}

/// `n` copies of `ty`.
pub open spec fn repeated_type(ty: IrType, n: nat) -> Seq<IrType> {
    Seq::new(n, |i: int| ty)
}

/// The declared types of struct fields, in order.
pub open spec fn field_types(fields: Seq<StructField>) -> Seq<IrType> {
    fields.map_values(|f: StructField| f.ty)
}

/// The declared types of parameters, in order.
pub open spec fn param_types(params: Seq<IrParam>) -> Seq<IrType> {
    params.map_values(|p: IrParam| p.ty)
}

/// A closure temp of type `actual` can hold a closure of `target`: its type is
/// `Unknown`, or a function type whose parameters and result agree with `target`'s.
pub open spec fn closure_fits(actual: IrType, target: IrFunction) -> bool {
    match actual {
        IrType::Unknown => true,
        IrType::Fn { params, ret } => params@.len() == target.params@.len()
            && (forall|i: int| 0 <= i < params@.len() ==> compatible_types(#[trigger] params@[i], target.params@[i].ty))
            && compatible_types(*ret, target.ret_ty),
        _ => false,
    }
}

/// `ty` is no type that `op` applies to: negation takes a number, `not` a
/// boolean (`Unknown` passes either).
pub open spec fn unary_type_bad(op: UnaryOp, ty: IrType) -> bool {
    match op {
        UnaryOp::Neg => !(ty is Int || ty is Float || ty is Unknown),
        UnaryOp::Not => !(ty is Bool || ty is Unknown),
    }
}

/// `ty` is no type that `op` applies to: addition takes a number or a string,
/// the other operators a number (`Unknown` passes any).
pub open spec fn binary_type_bad(op: BinaryOp, ty: IrType) -> bool {
    match op {
        BinaryOp::Add => !(ty is Int || ty is Float || ty is String || ty is Unknown),
        _ => !(ty is Int || ty is Float || ty is Unknown),
    }
}

/// Why one instruction is malformed, if it is: the first failing check, in the
/// order the verifier makes them.
pub open spec fn instr_failure(program: IrProgram, func: IrFunction, instr: Instr) -> Option<Failure> {
    match instr {
        Instr::Const { .. } | Instr::VecNew { .. } => None,
        Instr::Copy { dst, ty, src } =>
            first_of(operand_failure(program, func, src), first_of(temp_type_failure(func, dst, ty), operand_type_failure(program, func, src, ty))),
        Instr::Unary { dst, ty, op, operand } =>
            first_of(operand_failure(program, func, operand), first_of(temp_type_failure(func, dst, ty),
                first_of(operand_type_failure(program, func, operand, if op is Neg { ty } else { IrType::Bool }),
                    fails_if(unary_type_bad(op, ty), Failure::OperandTypeMismatch)))),
        Instr::Binary { dst, ty, op, left, right } =>
            first_of(operand_failure(program, func, left), first_of(operand_failure(program, func, right), first_of(temp_type_failure(func, dst, ty),
                first_of(operand_type_failure(program, func, left, ty), first_of(operand_type_failure(program, func, right, ty),
                    fails_if(binary_type_bad(op, ty), Failure::OperandTypeMismatch)))))),
        Instr::Compare { dst, left, right, .. } =>
            first_of(operand_failure(program, func, left), first_of(operand_failure(program, func, right), first_of(temp_type_failure(func, dst, IrType::Bool),
                match (operand_type(program, func, left), operand_type(program, func, right)) {
                    (Some(a), Some(b)) => fails_if(!compatible_types(a, b), Failure::OperandTypeMismatch),
                    _ => None,
                }))),
        Instr::Logic { dst, left, right, .. } =>
            first_of(operand_failure(program, func, left), first_of(operand_failure(program, func, right), first_of(temp_type_failure(func, dst, IrType::Bool),
                first_of(operand_type_failure(program, func, left, IrType::Bool), operand_type_failure(program, func, right, IrType::Bool))))),
        Instr::StoreGlobal { global, value, .. } => match global_of(program, global) {
            None => Some(Failure::UnknownGlobal),
            Some(g) => first_of(operand_failure(program, func, value), operand_type_failure(program, func, value, g.ty)),
        },
        Instr::StoreLocal { local, value, .. } => match local_of(func, local) {
            None => Some(Failure::UnknownLocal),
            Some(l) => first_of(operand_failure(program, func, value), operand_type_failure(program, func, value, l.ty)),
        },
        Instr::VecPush { vec, value } =>
            first_of(operand_failure(program, func, vec), first_of(operand_failure(program, func, value),
                if container_elem(program, func, vec) is Unknown { None }
                else { operand_type_failure(program, func, value, container_elem(program, func, vec)) })),
        Instr::MakeArray { elem_ty, items, .. } =>
            paired_failure(program, func, items@, repeated_type(elem_ty, items@.len())),
        Instr::MakeArrayRepeat { elem_ty, value, .. } => first_of(operand_failure(program, func, value), operand_type_failure(program, func, value, elem_ty)),
        Instr::VecLen { dst, vec } =>
            first_of(operand_failure(program, func, vec), first_of(temp_type_failure(func, dst, IrType::Int),
                fails_if(!(operand_type(program, func, vec) matches Some(IrType::Vec { .. })), Failure::OperandTypeMismatch))),
        Instr::ArrayGet { dst, elem_ty, array, index } | Instr::VecGet { dst, elem_ty, vec: array, index } =>
            first_of(operand_failure(program, func, array), first_of(operand_failure(program, func, index), first_of(operand_type_failure(program, func, index, IrType::Int),
                first_of(temp_type_failure(func, dst, elem_ty),
                    fails_if(!(container_elem(program, func, array) is Unknown)
                        && !compatible_types(elem_ty, container_elem(program, func, array)), Failure::OperandTypeMismatch))))),
        Instr::ArraySet { array, index, value, .. } | Instr::VecSet { vec: array, index, value, .. } =>
            first_of(operand_failure(program, func, array), first_of(operand_failure(program, func, index), first_of(operand_failure(program, func, value), first_of(operand_type_failure(program, func, index, IrType::Int),
                if container_elem(program, func, array) is Unknown { None }
                else { operand_type_failure(program, func, value, container_elem(program, func, array)) })))),
        Instr::VecDelete { vec, index, .. } =>
            first_of(operand_failure(program, func, vec), first_of(operand_failure(program, func, index), operand_type_failure(program, func, index, IrType::Int))),
        Instr::MakeStruct { struct_id, fields, .. } => match struct_of(program, struct_id) {
            None => Some(Failure::UnknownStruct),
            Some(s) => if s.fields@.len() != fields@.len() {
                Some(Failure::BadCallSignature)
            } else {
                paired_failure(program, func, fields@, field_types(s.fields@))
            },
        },
        Instr::StructGet { dst, ty, base, field } =>
            first_of(operand_failure(program, func, base), first_of(field_ref_failure(program, func, base, field),
                first_of(temp_type_failure(func, dst, ty),
                    match field_type(program, func, base, field) {
                        Some(e) => fails_if(!compatible_types(ty, e), Failure::OperandTypeMismatch),
                        None => None,
                    }))),
        Instr::StructSet { base, field, value, .. } =>
            first_of(operand_failure(program, func, base), first_of(field_ref_failure(program, func, base, field),
                first_of(operand_failure(program, func, value),
                    match field_type(program, func, base, field) {
                        Some(e) => operand_type_failure(program, func, value, e),
                        None => None,
                    }))),
        Instr::CallDirect { dst, ret_ty, function, args } => match function_of(program, function) {
            None => Some(Failure::UnknownFunctionTarget),
            Some(t) => if t.params@.len() != args@.len() {
                Some(Failure::BadCallSignature)
            } else {
                first_of(paired_failure(program, func, args@, param_types(t.params@)),
                    call_dest_failure(func, dst, ret_ty, t.ret_ty))
            },
        },
        Instr::CallBuiltin { args, .. } => operands_failure(program, func, args@),
        Instr::CallIndirect { ret_ty, callee, args, .. } =>
            first_of(operand_failure(program, func, callee), first_of(operands_failure(program, func, args@),
                match operand_type(program, func, callee) {
                    None => None,
                    Some(IrType::Unknown) => None,
                    Some(IrType::Fn { params, ret }) =>
                        if params@.len() != args@.len() || !compatible_types(ret_ty, *ret) {
                            Some(Failure::BadCallSignature)
                        } else {
                            typed_failure(program, func, args@, params@)
                        },
                    Some(_) => Some(Failure::BadCallSignature),
                })),
        Instr::LoadGlobal { dst, ty, global } => match global_of(program, global) {
            None => Some(Failure::UnknownGlobal),
            Some(g) => first_of(temp_type_failure(func, dst, ty),
                fails_if(!compatible_types(ty, g.ty), Failure::OperandTypeMismatch)),
        },
        Instr::LoadLocal { dst, ty, local } => match local_of(func, local) {
            None => Some(Failure::UnknownLocal),
            Some(l) => first_of(temp_type_failure(func, dst, ty),
                fails_if(!compatible_types(ty, l.ty), Failure::OperandTypeMismatch)),
        },
        Instr::MakeClosure { dst, function } => match function_of(program, function) {
            None => Some(Failure::UnknownFunctionTarget),
            Some(t) => match temp_of(func, dst) {
                None => Some(Failure::UnknownTemp),
                Some(tmp) => fails_if(!closure_fits(tmp.ty, t), Failure::BadCallSignature),
            },
        },
    }
}

/// The first failure among the instructions `instrs`.
pub open spec fn instrs_failure(program: IrProgram, func: IrFunction, instrs: Seq<Instr>) -> Option<Failure>
    decreases instrs.len(),
{
    if instrs.len() == 0 {
        None
    } else {
        first_of(instrs_failure(program, func, instrs.drop_last()), instr_failure(program, func, instrs.last()))
    }
}

/// Why a jump from block `block` to `target` is malformed, if it is.
pub open spec fn target_failure(func: IrFunction, block: BasicBlock, target: BlockId) -> Option<Failure> {
    fails_if(find_block(func.blocks@, target.0) < 0, Failure::UnknownBlockTarget(block.name@))
}

/// Why the terminator of `block` is malformed, if it is: a target that is not
/// a block, a branch condition that is not declared `Bool`, a returned value
/// whose type disagrees with the function's, or no value where one is owed.
pub open spec fn terminator_failure(program: IrProgram, func: IrFunction, block: BasicBlock) -> Option<Failure> {
    match block.terminator {
        Terminator::Jump(t) => target_failure(func, block, t),
        Terminator::Branch(b) => first_of(operand_failure(program, func, b.cond),
            first_of(fails_if(operand_type(program, func, b.cond) != Some(IrType::Bool), Failure::OperandTypeMismatch),
                first_of(target_failure(func, block, b.then_block), target_failure(func, block, b.else_block)))),
        Terminator::Return(Some(v)) => first_of(operand_failure(program, func, v),
            match operand_type(program, func, v) {
                Some(t) => fails_if(!compatible_types(t, func.ret_ty), Failure::ReturnTypeMismatch),
                None => None,
            }),
        Terminator::Return(None) => fails_if(!(func.ret_ty is Void), Failure::ReturnTypeMismatch),
        _ => None,
    }
}

/// Why `block` is malformed, if it is.
pub open spec fn block_failure(program: IrProgram, func: IrFunction, block: BasicBlock) -> Option<Failure> {
    if block.terminator is Unreachable && block.instrs@.len() != 0 {
        Some(Failure::MissingTerminator(block.name@))
    } else {
        first_of(instrs_failure(program, func, block.instrs@), terminator_failure(program, func, block))
    }
}

/// The first failure among the first `n` blocks of `func`.
pub open spec fn blocks_failure(program: IrProgram, func: IrFunction, n: int) -> Option<Failure>
    decreases n,
{
    if n <= 0 {
        None
    } else {
        first_of(blocks_failure(program, func, n - 1), block_failure(program, func, func.blocks@[n - 1]))
    }
}

/// No two elements of `ids` are equal.
pub open spec fn all_distinct(ids: Seq<usize>) -> bool {
    forall|i: int, j: int| 0 <= i < j < ids.len() ==> ids[i] != ids[j]
}

/// The ids of the blocks of `func`, in order.
pub open spec fn block_ids(func: IrFunction) -> Seq<usize> {
    func.blocks@.map_values(|b: BasicBlock| b.id.0)
}

/// The ids of the parameters of `func`, in order.
pub open spec fn param_ids(func: IrFunction) -> Seq<usize> {
    func.params@.map_values(|p: IrParam| p.id.0)
}

/// The ids of the locals of `func`, in order.
pub open spec fn local_ids(func: IrFunction) -> Seq<usize> {
    func.locals@.map_values(|l: IrLocal| l.id.0)
}

/// The ids of the temps of `func`, in order.
pub open spec fn temp_ids(func: IrFunction) -> Seq<usize> {
    func.temps@.map_values(|t: IrTemp| t.id.0)
}

/// Why the ids of `func` are not unique, if they are not: blocks, then
/// parameters, then locals, then temps, each list on its own.
pub open spec fn ids_failure(func: IrFunction) -> Option<Failure> {
    first_of(fails_if(!all_distinct(block_ids(func)), Failure::DuplicateBlockId),
        first_of(fails_if(!all_distinct(param_ids(func)), Failure::DuplicateParamId),
            first_of(fails_if(!all_distinct(local_ids(func)), Failure::DuplicateLocalId),
                fails_if(!all_distinct(temp_ids(func)), Failure::DuplicateTempId))))
}

/// Why `func` is malformed, if it is: no block is its entry, an id occurs
/// twice, or the first failing block's failure.
pub open spec fn function_failure(program: IrProgram, func: IrFunction) -> Option<Failure> {
    if find_block(func.blocks@, func.entry.0) < 0 {
        Some(Failure::MissingEntryBlock)
    } else {
        first_of(ids_failure(func), blocks_failure(program, func, func.blocks@.len() as int))
    }
}

/// The first failing function among the first `n`, with its failure.
pub open spec fn functions_failure(program: IrProgram, n: int) -> Option<(Failure, Seq<char>)>
    decreases n,
{
    if n <= 0 {
        None
    } else {
        match functions_failure(program, n - 1) {
            Some(f) => Some(f),
            None => match function_failure(program, program.functions@[n - 1]) {
                Some(f) => Some((f, program.functions@[n - 1].name@)),
                None => None,
            },
        }
    }
}

/// Why `program` is malformed, if it is: the first failing function, else a
/// module initializer that names no function.
pub open spec fn program_failure(program: IrProgram) -> Option<(Failure, Seq<char>)> {
    match functions_failure(program, program.functions@.len() as int) {
        Some(f) => Some(f),
        None => match program.module_init {
            Some(init) => if function_of(program, init.function) is Some {
                None
            } else {
                Some((Failure::UnknownModuleInitFunction, Seq::empty()))
            },
            None => None,
        },
    }
}

/// `r` refers to the type that `o` holds, and is absent where `o` is.
pub open spec fn refers_to(r: Option<&IrType>, o: Option<IrType>) -> bool {
    match r {
        Some(t) => o == Some(*t),
        None => o is None,
    }
}

proof fn lemma_first_match_skip<A>(s: Seq<A>, p: spec_fn(A) -> bool, i: int)
    requires
        0 <= i < s.len(),
    ensures
        first_match(s.skip(i), p) == (if p(s[i]) { Some(s[i]) } else { first_match(s.skip(i + 1), p) }),
{
    assert(s.skip(i).drop_first() =~= s.skip(i + 1));
    assert(s.skip(i)[0] == s[i]);
}

proof fn lemma_first_match_ends<A>(s: Seq<A>, p: spec_fn(A) -> bool)
    ensures
        first_match(s.skip(0), p) == first_match(s, p),
        first_match(s.skip(s.len() as int), p) is None,
{
    assert(s.skip(0) =~= s);
    assert(s.skip(s.len() as int).len() == 0);
}

proof fn lemma_paired_skip(program: IrProgram, func: IrFunction, ops: Seq<Operand>, tys: Seq<IrType>, i: int)
    requires
        0 <= i < ops.len(),
        ops.len() == tys.len(),
    ensures
        paired_failure(program, func, ops.skip(i), tys.skip(i)) == first_of(operand_failure(program, func, ops[i]),
            first_of(operand_type_failure(program, func, ops[i], tys[i]),
                paired_failure(program, func, ops.skip(i + 1), tys.skip(i + 1)))),
{
    assert(ops.skip(i).drop_first() =~= ops.skip(i + 1));
    assert(tys.skip(i).drop_first() =~= tys.skip(i + 1));
    assert(ops.skip(i)[0] == ops[i]);
    assert(tys.skip(i)[0] == tys[i]);
}

proof fn lemma_typed_skip(program: IrProgram, func: IrFunction, ops: Seq<Operand>, tys: Seq<IrType>, i: int)
    requires
        0 <= i < ops.len(),
        ops.len() == tys.len(),
    ensures
        typed_failure(program, func, ops.skip(i), tys.skip(i)) == first_of(
            operand_type_failure(program, func, ops[i], tys[i]),
            typed_failure(program, func, ops.skip(i + 1), tys.skip(i + 1))),
{
    assert(ops.skip(i).drop_first() =~= ops.skip(i + 1));
    assert(tys.skip(i).drop_first() =~= tys.skip(i + 1));
    assert(ops.skip(i)[0] == ops[i]);
    assert(tys.skip(i)[0] == tys[i]);
}

proof fn lemma_list_ends(program: IrProgram, func: IrFunction, ops: Seq<Operand>, tys: Seq<IrType>)
    ensures
        paired_failure(program, func, ops.skip(0), tys.skip(0)) == paired_failure(program, func, ops, tys),
        typed_failure(program, func, ops.skip(0), tys.skip(0)) == typed_failure(program, func, ops, tys),
        paired_failure(program, func, ops.skip(ops.len() as int), tys.skip(ops.len() as int)) is None,
        typed_failure(program, func, ops.skip(ops.len() as int), tys.skip(ops.len() as int)) is None,
{
    assert(ops.skip(0) =~= ops);
    assert(tys.skip(0) =~= tys);
    assert(ops.skip(ops.len() as int).len() == 0);
}

/// Decides `compatible_types`.
#[verifier::loop_isolation(false)]
pub fn types_compatible(a: &IrType, b: &IrType) -> (r: bool)
    ensures
        r == compatible_types(*a, *b),
    decreases a,
{
    match (a, b) {
        (IrType::Unknown, _) => true,
        (_, IrType::Unknown) => true,
        (IrType::Array { elem: e1, size: s1 }, IrType::Array { elem: e2, size: s2 }) => {
            *s1 == *s2 && types_compatible(e1, e2)
        },
        (IrType::Vec { elem: e1 }, IrType::Vec { elem: e2 }) => types_compatible(e1, e2),
        (IrType::Fn { params: p1, ret: r1 }, IrType::Fn { params: p2, ret: r2 }) => {
            if p1.len() != p2.len() {
                return false;
            }
            let mut i: usize = 0;
            while i < p1.len()
                invariant
                    i <= p1@.len(),
                    p1@.len() == p2@.len(),
                    forall|j: int| 0 <= j < i ==> compatible_types(#[trigger] p1@[j], p2@[j]),
                decreases p1@.len() - i,
            {
                proof {
                    assert(decreases_to!(*p1 => p1@));
                    assert(decreases_to!(*a => p1@[i as int]));
                }
                if !types_compatible(&p1[i], &p2[i]) {
                    return false;
                }
                i += 1;
            }
            types_compatible(r1, r2)
        },
        (IrType::Int, IrType::Int) => true,
        (IrType::Float, IrType::Float) => true,
        (IrType::Bool, IrType::Bool) => true,
        (IrType::String, IrType::String) => true,
        (IrType::Void, IrType::Void) => true,
        (IrType::Named(x), IrType::Named(y)) => text_eq(x.as_str(), y.as_str()),
        _ => false,
    }
}

/// The types of constants, held so that lookups can hand out references to them.
struct ConstTypes {
    int: IrType,
    float: IrType,
    boolean: IrType,
    string: IrType,
    void: IrType,
    unknown: IrType,
}

impl ConstTypes {
    spec fn holds_consts(&self) -> bool {
        &&& self.int == IrType::Int
        &&& self.float == IrType::Float
        &&& self.boolean == IrType::Bool
        &&& self.string == IrType::String
        &&& self.void == IrType::Void
        &&& self.unknown == IrType::Unknown
    }

    fn new() -> (r: Self)
        ensures
            r.holds_consts(),
    {
        ConstTypes {
            int: IrType::Int,
            float: IrType::Float,
            boolean: IrType::Bool,
            string: IrType::String,
            void: IrType::Void,
            unknown: IrType::Unknown,
        }
    }
}

fn find_temp<'a>(func: &'a IrFunction, key: TempId) -> (r: Option<&'a IrTemp>)
    ensures
        match r {
            Some(x) => temp_of(*func, key) == Some(*x),
            None => temp_of(*func, key) is None,
        },
{
    let s = &func.temps;
    proof {
        lemma_first_match_ends(s@, temp_id_is(key));
    }
    let mut i: usize = 0;
    while i < s.len()
        invariant
            i <= s@.len(),
            *s == func.temps,
            temp_of(*func, key) == first_match(s@.skip(i as int), temp_id_is(key)),
        decreases s@.len() - i,
    {
        proof {
            lemma_first_match_skip(s@, temp_id_is(key), i as int);
        }
        if s[i].id == key {
            return Some(&s[i]);
        }
        i += 1;
    }
    None
}

fn find_local<'a>(func: &'a IrFunction, key: LocalId) -> (r: Option<&'a IrLocal>)
    ensures
        match r {
            Some(x) => local_of(*func, key) == Some(*x),
            None => local_of(*func, key) is None,
        },
{
    let s = &func.locals;
    proof {
        lemma_first_match_ends(s@, local_id_is(key));
    }
    let mut i: usize = 0;
    while i < s.len()
        invariant
            i <= s@.len(),
            *s == func.locals,
            local_of(*func, key) == first_match(s@.skip(i as int), local_id_is(key)),
        decreases s@.len() - i,
    {
        proof {
            lemma_first_match_skip(s@, local_id_is(key), i as int);
        }
        if s[i].id == key {
            return Some(&s[i]);
        }
        i += 1;
    }
    None
}

fn find_global<'a>(program: &'a IrProgram, key: GlobalId) -> (r: Option<&'a IrGlobal>)
    ensures
        match r {
            Some(x) => global_of(*program, key) == Some(*x),
            None => global_of(*program, key) is None,
        },
{
    let s = &program.globals;
    proof {
        lemma_first_match_ends(s@, global_id_is(key));
    }
    let mut i: usize = 0;
    while i < s.len()
        invariant
            i <= s@.len(),
            *s == program.globals,
            global_of(*program, key) == first_match(s@.skip(i as int), global_id_is(key)),
        decreases s@.len() - i,
    {
        proof {
            lemma_first_match_skip(s@, global_id_is(key), i as int);
        }
        if s[i].id == key {
            return Some(&s[i]);
        }
        i += 1;
    }
    None
}

fn find_function<'a>(program: &'a IrProgram, key: FunctionId) -> (r: Option<&'a IrFunction>)
    ensures
        match r {
            Some(x) => function_of(*program, key) == Some(*x),
            None => function_of(*program, key) is None,
        },
{
    let s = &program.functions;
    proof {
        lemma_first_match_ends(s@, function_id_is(key));
    }
    let mut i: usize = 0;
    while i < s.len()
        invariant
            i <= s@.len(),
            *s == program.functions,
            function_of(*program, key) == first_match(s@.skip(i as int), function_id_is(key)),
        decreases s@.len() - i,
    {
        proof {
            lemma_first_match_skip(s@, function_id_is(key), i as int);
        }
        if s[i].id == key {
            return Some(&s[i]);
        }
        i += 1;
    }
    None
}

fn find_struct<'a>(program: &'a IrProgram, key: StructId) -> (r: Option<&'a IrStruct>)
    ensures
        match r {
            Some(x) => struct_of(*program, key) == Some(*x),
            None => struct_of(*program, key) is None,
        },
{
    let s = &program.structs;
    proof {
        lemma_first_match_ends(s@, struct_id_is(key));
    }
    let mut i: usize = 0;
    while i < s.len()
        invariant
            i <= s@.len(),
            *s == program.structs,
            struct_of(*program, key) == first_match(s@.skip(i as int), struct_id_is(key)),
        decreases s@.len() - i,
    {
        proof {
            lemma_first_match_skip(s@, struct_id_is(key), i as int);
        }
        if s[i].id == key {
            return Some(&s[i]);
        }
        i += 1;
    }
    None
}

fn find_struct_named<'a>(program: &'a IrProgram, key: &str) -> (r: Option<&'a IrStruct>)
    ensures
        match r {
            Some(x) => struct_named(*program, key@) == Some(*x),
            None => struct_named(*program, key@) is None,
        },
{
    let s = &program.structs;
    proof {
        lemma_first_match_ends(s@, struct_name_is(key@));
    }
    let mut i: usize = 0;
    while i < s.len()
        invariant
            i <= s@.len(),
            *s == program.structs,
            struct_named(*program, key@) == first_match(s@.skip(i as int), struct_name_is(key@)),
        decreases s@.len() - i,
    {
        proof {
            lemma_first_match_skip(s@, struct_name_is(key@), i as int);
        }
        if text_eq(s[i].name.as_str(), key) {
            return Some(&s[i]);
        }
        i += 1;
    }
    None
}

fn find_field<'a>(fields: &'a Vec<StructField>, key: &str) -> (r: Option<&'a StructField>)
    ensures
        match r {
            Some(x) => field_named(fields@, key@) == Some(*x),
            None => field_named(fields@, key@) is None,
        },
{
    proof {
        lemma_first_match_ends(fields@, field_name_is(key@));
    }
    let mut i: usize = 0;
    while i < fields.len()
        invariant
            i <= fields@.len(),
            field_named(fields@, key@) == first_match(fields@.skip(i as int), field_name_is(key@)),
        decreases fields@.len() - i,
    {
        proof {
            lemma_first_match_skip(fields@, field_name_is(key@), i as int);
        }
        if text_eq(fields[i].name.as_str(), key) {
            return Some(&fields[i]);
        }
        i += 1;
    }
    None
}

fn block_id_list(func: &IrFunction) -> (r: Vec<usize>)
    ensures
        r@ == block_ids(*func),
{
    let mut v: Vec<usize> = Vec::new();
    let mut i: usize = 0;
    while i < func.blocks.len()
        invariant
            i <= func.blocks@.len(),
            v@.len() == i,
            forall|j: int| 0 <= j < i ==> v@[j] == #[trigger] func.blocks@[j].id.0,
        decreases func.blocks@.len() - i,
    {
        v.push(func.blocks[i].id.0);
        i += 1;
    }
    assert(v@ =~= block_ids(*func));
    v
}

fn param_id_list(func: &IrFunction) -> (r: Vec<usize>)
    ensures
        r@ == param_ids(*func),
{
    let mut v: Vec<usize> = Vec::new();
    let mut i: usize = 0;
    while i < func.params.len()
        invariant
            i <= func.params@.len(),
            v@.len() == i,
            forall|j: int| 0 <= j < i ==> v@[j] == #[trigger] func.params@[j].id.0,
        decreases func.params@.len() - i,
    {
        v.push(func.params[i].id.0);
        i += 1;
    }
    assert(v@ =~= param_ids(*func));
    v
}

fn local_id_list(func: &IrFunction) -> (r: Vec<usize>)
    ensures
        r@ == local_ids(*func),
{
    let mut v: Vec<usize> = Vec::new();
    let mut i: usize = 0;
    while i < func.locals.len()
        invariant
            i <= func.locals@.len(),
            v@.len() == i,
            forall|j: int| 0 <= j < i ==> v@[j] == #[trigger] func.locals@[j].id.0,
        decreases func.locals@.len() - i,
    {
        v.push(func.locals[i].id.0);
        i += 1;
    }
    assert(v@ =~= local_ids(*func));
    v
}

fn temp_id_list(func: &IrFunction) -> (r: Vec<usize>)
    ensures
        r@ == temp_ids(*func),
{
    let mut v: Vec<usize> = Vec::new();
    let mut i: usize = 0;
    while i < func.temps.len()
        invariant
            i <= func.temps@.len(),
            v@.len() == i,
            forall|j: int| 0 <= j < i ==> v@[j] == #[trigger] func.temps@[j].id.0,
        decreases func.temps@.len() - i,
    {
        v.push(func.temps[i].id.0);
        i += 1;
    }
    assert(v@ =~= temp_ids(*func));
    v
}

/// Decides `all_distinct`.
fn distinct(ids: &Vec<usize>) -> (r: bool)
    ensures
        r == all_distinct(ids@),
{
    let mut i: usize = 0;
    while i < ids.len()
        invariant
            i <= ids@.len(),
            forall|a: int, b: int| 0 <= a < b < ids@.len() && a < i ==> ids@[a] != ids@[b],
        decreases ids@.len() - i,
    {
        let mut j: usize = i + 1;
        while j < ids.len()
            invariant
                i < ids@.len(),
                i + 1 <= j <= ids@.len(),
                forall|a: int, b: int| 0 <= a < b < ids@.len() && a < i ==> ids@[a] != ids@[b],
                forall|b: int| i < b < j ==> ids@[i as int] != ids@[b],
            decreases ids@.len() - j,
        {
            if ids[i] == ids[j] {
                assert(!all_distinct(ids@)) by {
                    assert(ids@[i as int] == ids@[j as int]);
                }
                return false;
            }
            j += 1;
        }
        i += 1;
    }
    true
}

/// The checker of IR programs.
pub struct IrVerifier;

impl IrVerifier {
    /// Checks every function, then that the module initializer names a function.
    /// Fails with the first failure found.
    pub fn verify_program(program: &IrProgram) -> (r: Result<(), IrVerifyError>)
        ensures
            match program_failure(*program) {
                None => r is Ok,
                Some((f, name)) => r matches Err(e) && reports(e, f, name),
            },
    {
        let mut i: usize = 0;
        while i < program.functions.len()
            invariant
                i <= program.functions@.len(),
                functions_failure(*program, i as int) is None,
            decreases program.functions@.len() - i,
        {
            let r = Self::verify_function(program, &program.functions[i]);
            if let Err(e) = r {
                proof {
                    lemma_functions_mono(*program, i + 1, program.functions@.len() as int);
                }
                return Err(e);
            }
            i += 1;
        }
        if let Some(init) = &program.module_init {
            if find_function(program, init.function).is_none() {
                return Err(IrVerifyError::UnknownModuleInitFunction);
            }
        }
        Ok(())
    }

    /// Checks that the entry block exists and that ids are unique, then each
    /// block in order: an `Unreachable` block holds no instructions, each
    /// instruction passes `verify_instr`, every target exists, a branch
    /// condition is declared `Bool`, and returns agree with the return type.
    /// Fails with the first failure found.
    pub fn verify_function(program: &IrProgram, func: &IrFunction) -> (r: Result<(), IrVerifyError>)
        ensures
            match function_failure(*program, *func) {
                None => r is Ok,
                Some(f) => r matches Err(e) && reports(e, f, func.name@),
            },
    {
        proof {
            lemma_find_block(func.blocks@, func.entry.0);
        }
        if position_of_block(&func.blocks, func.entry).is_none() {
            return Err(IrVerifyError::MissingEntryBlock { function: func.name.clone() });
        }
        Self::verify_unique_ids(func)?;
        let mut k: usize = 0;
        while k < func.blocks.len()
            invariant
                k <= func.blocks@.len(),
                find_block(func.blocks@, func.entry.0) >= 0,
                ids_failure(*func) is None,
                blocks_failure(*program, *func, k as int) is None,
            decreases func.blocks@.len() - k,
        {
            let block = &func.blocks[k];
            let r = Self::verify_block(program, func, block);
            if let Err(e) = r {
                proof {
                    lemma_blocks_mono(*program, *func, k + 1, func.blocks@.len() as int);
                }
                return Err(e);
            }
            k += 1;
        }
        Ok(())
    }

    /// Checks that block, parameter, local and temp ids are each unique.
    fn verify_unique_ids(func: &IrFunction) -> (r: Result<(), IrVerifyError>)
        ensures
            outcome(r, ids_failure(*func), func.name@),
    {
        if !distinct(&block_id_list(func)) {
            return Err(IrVerifyError::DuplicateBlockId { function: func.name.clone() });
        }
        if !distinct(&param_id_list(func)) {
            return Err(IrVerifyError::DuplicateParamId { function: func.name.clone() });
        }
        if !distinct(&local_id_list(func)) {
            return Err(IrVerifyError::DuplicateLocalId { function: func.name.clone() });
        }
        if !distinct(&temp_id_list(func)) {
            return Err(IrVerifyError::DuplicateTempId { function: func.name.clone() });
        }
        Ok(())
    }

    fn verify_block(program: &IrProgram, func: &IrFunction, block: &BasicBlock) -> (r: Result<(), IrVerifyError>)
        ensures
            outcome(r, block_failure(*program, *func, *block), func.name@),
    {
        if matches!(block.terminator, Terminator::Unreachable) && block.instrs.len() != 0 {
            return Err(IrVerifyError::MissingTerminator {
                function: func.name.clone(),
                block: block.name.clone(),
            });
        }
        let mut n: usize = 0;
        while n < block.instrs.len()
            invariant
                n <= block.instrs@.len(),
                !(block.terminator is Unreachable && block.instrs@.len() != 0),
                instrs_failure(*program, *func, block.instrs@.take(n as int)) is None,
            decreases block.instrs@.len() - n,
        {
            proof {
                assert(block.instrs@.take(n + 1).drop_last() =~= block.instrs@.take(n as int));
            }
            if let Err(e) = Self::verify_instr(program, func, &block.instrs[n]) {
                proof {
                    lemma_instrs_prefix(*program, *func, block.instrs@, n + 1);
                }
                return Err(e);
            }
            n += 1;
        }
        proof {
            assert(block.instrs@.take(n as int) =~= block.instrs@);
        }
        Self::verify_terminator(program, func, block)
    }

    fn verify_terminator(program: &IrProgram, func: &IrFunction, block: &BasicBlock) -> (r: Result<(), IrVerifyError>)
        ensures
            outcome(r, terminator_failure(*program, *func, *block), func.name@),
    {
        let k = ConstTypes::new();
        match &block.terminator {
            Terminator::Jump(target) => Self::verify_block_target(func, block.name.as_str(), *target),
            Terminator::Panic { .. } | Terminator::Unreachable => Ok(()),
            Terminator::Branch(branch) => {
                Self::verify_operand(program, func, &branch.cond)?;
                match Self::type_of_operand(program, func, &branch.cond, &k) {
                    Some(IrType::Bool) => {},
                    _ => {
                        return Err(IrVerifyError::OperandTypeMismatch { function: func.name.clone() });
                    },
                }
                Self::verify_block_target(func, block.name.as_str(), branch.then_block)?;
                Self::verify_block_target(func, block.name.as_str(), branch.else_block)
            },
            Terminator::Return(Some(value)) => {
                Self::verify_operand(program, func, value)?;
                if let Some(ty) = Self::type_of_operand(program, func, value, &k) {
                    if !types_compatible(ty, &func.ret_ty) {
                        return Err(IrVerifyError::ReturnTypeMismatch { function: func.name.clone() });
                    }
                }
                Ok(())
            },
            Terminator::Return(None) => {
                if !func.ret_ty.is_void() {
                    return Err(IrVerifyError::ReturnTypeMismatch { function: func.name.clone() });
                }
                Ok(())
            },
        }
    }

    /// Checks that `target` is the id of a block of `func`.
    fn verify_block_target(func: &IrFunction, block: &str, target: BlockId) -> (r: Result<(), IrVerifyError>)
        ensures
            find_block(func.blocks@, target.0) >= 0 ==> r is Ok,
            find_block(func.blocks@, target.0) < 0 ==> (r matches Err(IrVerifyError::UnknownBlockTarget { function, block: b })
                && function@ == func.name@ && b@ == block@),
    {
        if position_of_block(&func.blocks, target).is_some() {
            Ok(())
        } else {
            Err(IrVerifyError::UnknownBlockTarget {
                function: func.name.clone(),
                block: block.to_string(),
            })
        }
    }

    /// Checks that an operand resolves: a temp or local of `func`, or a global of `program`.
    fn verify_operand(program: &IrProgram, func: &IrFunction, operand: &Operand) -> (r: Result<(), IrVerifyError>)
        ensures
            outcome(r, operand_failure(*program, *func, *operand), func.name@),
    {
        match operand {
            Operand::Const(_) => Ok(()),
            Operand::Temp(id) => if find_temp(func, *id).is_some() {
                Ok(())
            } else {
                Err(IrVerifyError::UnknownTemp { function: func.name.clone() })
            },
            Operand::Local(id) => if find_local(func, *id).is_some() {
                Ok(())
            } else {
                Err(IrVerifyError::UnknownLocal { function: func.name.clone() })
            },
            Operand::Global(id) => if find_global(program, *id).is_some() {
                Ok(())
            } else {
                Err(IrVerifyError::UnknownGlobal)
            },
        }
    }

    fn verify_operand_list(program: &IrProgram, func: &IrFunction, ops: &Vec<Operand>) -> (r: Result<(), IrVerifyError>)
        ensures
            outcome(r, operands_failure(*program, *func, ops@), func.name@),
    {
        let mut i: usize = 0;
        while i < ops.len()
            invariant
                i <= ops@.len(),
                operands_failure(*program, *func, ops@.take(i as int)) is None,
            decreases ops@.len() - i,
        {
            proof {
                assert(ops@.take(i + 1).drop_last() =~= ops@.take(i as int));
            }
            if let Err(e) = Self::verify_operand(program, func, &ops[i]) {
                proof {
                    lemma_operands_prefix(*program, *func, ops@, i + 1);
                }
                return Err(e);
            }
            i += 1;
        }
        proof {
            assert(ops@.take(i as int) =~= ops@);
        }
        Ok(())
    }

    /// The type of an operand, as `operand_type` gives it.
    fn type_of_operand<'a>(program: &'a IrProgram, func: &'a IrFunction, op: &Operand, k: &'a ConstTypes) -> (r: Option<&'a IrType>)
        requires
            k.holds_consts(),
        ensures
            refers_to(r, operand_type(*program, *func, *op)),
    {
        match op {
            Operand::Const(ConstValue::Int(_)) => Some(&k.int),
            Operand::Const(ConstValue::Float(_)) => Some(&k.float),
            Operand::Const(ConstValue::Bool(_)) => Some(&k.boolean),
            Operand::Const(ConstValue::String(_)) => Some(&k.string),
            Operand::Const(ConstValue::Unit) => Some(&k.void),
            Operand::Temp(id) => match find_temp(func, *id) {
                Some(t) => Some(&t.ty),
                None => None,
            },
            Operand::Local(id) => match find_local(func, *id) {
                Some(l) => Some(&l.ty),
                None => None,
            },
            Operand::Global(id) => match find_global(program, *id) {
                Some(g) => Some(&g.ty),
                None => None,
            },
        }
    }

    /// The element type of an array or vector operand, as `container_elem` gives it.
    fn elem_type_of<'a>(program: &'a IrProgram, func: &'a IrFunction, op: &Operand, k: &'a ConstTypes) -> (r: &'a IrType)
        requires
            k.holds_consts(),
        ensures
            *r == container_elem(*program, *func, *op),
    {
        match Self::type_of_operand(program, func, op, k) {
            Some(IrType::Array { elem, .. }) => elem,
            Some(IrType::Vec { elem }) => elem,
            _ => &k.unknown,
        }
    }

    /// The declared type of a field, as `field_type` gives it.
    fn type_of_field<'a>(program: &'a IrProgram, func: &'a IrFunction, base: &Operand, field: &FieldRef, k: &'a ConstTypes) -> (r: Option<&'a IrType>)
        requires
            k.holds_consts(),
        ensures
            refers_to(r, field_type(*program, *func, *base, *field)),
    {
        match Self::type_of_operand(program, func, base, k) {
            Some(IrType::Named(n)) => match find_struct_named(program, n.as_str()) {
                Some(s) => match find_field(&s.fields, field.name.as_str()) {
                    Some(f) => Some(&f.ty),
                    None => None,
                },
                None => None,
            },
            _ => None,
        }
    }

    fn check_temp_type(func: &IrFunction, id: TempId, ty: &IrType) -> (r: Result<(), IrVerifyError>)
        ensures
            outcome(r, temp_type_failure(*func, id, *ty), func.name@),
    {
        match find_temp(func, id) {
            None => Err(IrVerifyError::UnknownTemp { function: func.name.clone() }),
            Some(t) => if types_compatible(&t.ty, ty) {
                Ok(())
            } else {
                Err(IrVerifyError::OperandTypeMismatch { function: func.name.clone() })
            },
        }
    }

    fn check_operand_type(program: &IrProgram, func: &IrFunction, op: &Operand, ty: &IrType, k: &ConstTypes) -> (r: Result<(), IrVerifyError>)
        requires
            k.holds_consts(),
        ensures
            outcome(r, operand_type_failure(*program, *func, *op, *ty), func.name@),
    {
        match Self::type_of_operand(program, func, op, k) {
            Some(t) => if types_compatible(t, ty) {
                Ok(())
            } else {
                Err(IrVerifyError::OperandTypeMismatch { function: func.name.clone() })
            },
            None => Ok(()),
        }
    }

    fn check_field_ref(program: &IrProgram, func: &IrFunction, base: &Operand, field: &FieldRef, k: &ConstTypes) -> (r: Result<(), IrVerifyError>)
        requires
            k.holds_consts(),
        ensures
            outcome(r, field_ref_failure(*program, *func, *base, *field), func.name@),
    {
        match Self::type_of_operand(program, func, base, k) {
            Some(IrType::Named(n)) => match find_struct_named(program, n.as_str()) {
                None => Err(IrVerifyError::UnknownStruct { function: func.name.clone() }),
                Some(s) => if find_field(&s.fields, field.name.as_str()).is_some() {
                    Ok(())
                } else {
                    Err(IrVerifyError::UnknownField { function: func.name.clone(), field: field.name.clone() })
                },
            },
            _ => Ok(()),
        }
    }

    fn check_items(program: &IrProgram, func: &IrFunction, ops: &Vec<Operand>, ty: &IrType, k: &ConstTypes) -> (r: Result<(), IrVerifyError>)
        requires
            k.holds_consts(),
            
        ensures
            outcome(r, paired_failure(*program, *func, ops@, repeated_type(*ty, ops@.len())), func.name@),
    {
        proof {
            lemma_list_ends(*program, *func, ops@, repeated_type(*ty, ops@.len()));
        }
        let mut i: usize = 0;
        while i < ops.len()
            invariant
                k.holds_consts(),
                i <= ops@.len(),
                
                paired_failure(*program, *func, ops@, repeated_type(*ty, ops@.len()))
                    == paired_failure(*program, *func, ops@.skip(i as int), repeated_type(*ty, ops@.len()).skip(i as int)),
            decreases ops@.len() - i,
        {
            proof {
                lemma_paired_skip(*program, *func, ops@, repeated_type(*ty, ops@.len()), i as int);
                assert(repeated_type(*ty, ops@.len())[i as int] == *ty);
            }
            Self::verify_operand(program, func, &ops[i])?;
            Self::check_operand_type(program, func, &ops[i], ty, k)?;
            i += 1;
        }
        Ok(())
    }

    fn check_fields(program: &IrProgram, func: &IrFunction, ops: &Vec<Operand>, fields: &Vec<StructField>, k: &ConstTypes) -> (r: Result<(), IrVerifyError>)
        requires
            k.holds_consts(),
            ops@.len() == fields@.len(),
        ensures
            outcome(r, paired_failure(*program, *func, ops@, field_types(fields@)), func.name@),
    {
        proof {
            lemma_list_ends(*program, *func, ops@, field_types(fields@));
        }
        let mut i: usize = 0;
        while i < ops.len()
            invariant
                k.holds_consts(),
                i <= ops@.len(),
                ops@.len() == fields@.len(),
                paired_failure(*program, *func, ops@, field_types(fields@))
                    == paired_failure(*program, *func, ops@.skip(i as int), field_types(fields@).skip(i as int)),
            decreases ops@.len() - i,
        {
            proof {
                lemma_paired_skip(*program, *func, ops@, field_types(fields@), i as int);
                assert(field_types(fields@)[i as int] == fields@[i as int].ty);
            }
            Self::verify_operand(program, func, &ops[i])?;
            Self::check_operand_type(program, func, &ops[i], &fields[i].ty, k)?;
            i += 1;
        }
        Ok(())
    }

    fn check_args(program: &IrProgram, func: &IrFunction, ops: &Vec<Operand>, params: &Vec<IrParam>, k: &ConstTypes) -> (r: Result<(), IrVerifyError>)
        requires
            k.holds_consts(),
            ops@.len() == params@.len(),
        ensures
            outcome(r, paired_failure(*program, *func, ops@, param_types(params@)), func.name@),
    {
        proof {
            lemma_list_ends(*program, *func, ops@, param_types(params@));
        }
        let mut i: usize = 0;
        while i < ops.len()
            invariant
                k.holds_consts(),
                i <= ops@.len(),
                ops@.len() == params@.len(),
                paired_failure(*program, *func, ops@, param_types(params@))
                    == paired_failure(*program, *func, ops@.skip(i as int), param_types(params@).skip(i as int)),
            decreases ops@.len() - i,
        {
            proof {
                lemma_paired_skip(*program, *func, ops@, param_types(params@), i as int);
                assert(param_types(params@)[i as int] == params@[i as int].ty);
            }
            Self::verify_operand(program, func, &ops[i])?;
            Self::check_operand_type(program, func, &ops[i], &params[i].ty, k)?;
            i += 1;
        }
        Ok(())
    }

    fn check_typed(program: &IrProgram, func: &IrFunction, ops: &Vec<Operand>, tys: &Vec<IrType>, k: &ConstTypes) -> (r: Result<(), IrVerifyError>)
        requires
            k.holds_consts(),
            ops@.len() == tys@.len(),
        ensures
            outcome(r, typed_failure(*program, *func, ops@, tys@), func.name@),
    {
        proof {
            lemma_list_ends(*program, *func, ops@, tys@);
        }
        let mut i: usize = 0;
        while i < ops.len()
            invariant
                k.holds_consts(),
                i <= ops@.len(),
                ops@.len() == tys@.len(),
                typed_failure(*program, *func, ops@, tys@)
                    == typed_failure(*program, *func, ops@.skip(i as int), tys@.skip(i as int)),
            decreases ops@.len() - i,
        {
            proof {
                lemma_typed_skip(*program, *func, ops@, tys@, i as int);
                assert(tys@[i as int] == tys@[i as int]);
            }
            Self::check_operand_type(program, func, &ops[i], &tys[i], k)?;
            i += 1;
        }
        Ok(())
    }

    /// Decides `closure_fits`.
    #[verifier::loop_isolation(false)]
    fn closure_fits_function(actual: &IrType, target: &IrFunction) -> (r: bool)
        ensures
            r == closure_fits(*actual, *target),
    {
        match actual {
            IrType::Unknown => true,
            IrType::Fn { params, ret } => {
                if params.len() != target.params.len() {
                    return false;
                }
                let mut i: usize = 0;
                while i < params.len()
                    invariant
                        i <= params@.len(),
                        params@.len() == target.params@.len(),
                        forall|j: int| 0 <= j < i ==> compatible_types(#[trigger] params@[j], target.params@[j].ty),
                    decreases params@.len() - i,
                {
                    if !types_compatible(&params[i], &target.params[i].ty) {
                        assert(!compatible_types(params@[i as int], target.params@[i as int].ty));
                        return false;
                    }
                    i += 1;
                }
                types_compatible(ret, &target.ret_ty)
            },
            _ => false,
        }
    }

    /// Checks one instruction of `func`: its operands resolve, its destination
    /// temp exists, the types it declares agree with those of its operands,
    /// destination, global, local, container, struct field and callee, and
    /// every function, struct and field it names exists. Fails with the first
    /// failure found, in the order of `instr_failure`.
    #[verifier::rlimit(50)]
    pub fn verify_instr(program: &IrProgram, func: &IrFunction, instr: &Instr) -> (r: Result<(), IrVerifyError>)
        ensures
            match instr_failure(*program, *func, *instr) {
                None => r is Ok,
                Some(f) => r matches Err(e) && reports(e, f, func.name@),
            },
    {
        let k = ConstTypes::new();
        let mismatch = IrVerifyError::OperandTypeMismatch { function: func.name.clone() };
        let bad_call = IrVerifyError::BadCallSignature { function: func.name.clone() };
        match instr {
            Instr::Const { .. } | Instr::VecNew { .. } => Ok(()),
            Instr::Copy { dst, ty, src } => {
                Self::verify_operand(program, func, src)?;
                Self::check_temp_type(func, *dst, ty)?;
                Self::check_operand_type(program, func, src, ty, &k)
            },
            Instr::Unary { dst, ty, op, operand } => {
                Self::verify_operand(program, func, operand)?;
                Self::check_temp_type(func, *dst, ty)?;
                let expected: &IrType = match op {
                    UnaryOp::Neg => ty,
                    UnaryOp::Not => &k.boolean,
                };
                Self::check_operand_type(program, func, operand, expected, &k)?;
                let bad = match op {
                    UnaryOp::Neg => !matches!(ty, IrType::Int | IrType::Float | IrType::Unknown),
                    UnaryOp::Not => !matches!(ty, IrType::Bool | IrType::Unknown),
                };
                if bad { Err(mismatch) } else { Ok(()) }
            },
            Instr::Binary { dst, ty, op, left, right } => {
                Self::verify_operand(program, func, left)?;
                Self::verify_operand(program, func, right)?;
                Self::check_temp_type(func, *dst, ty)?;
                Self::check_operand_type(program, func, left, ty, &k)?;
                Self::check_operand_type(program, func, right, ty, &k)?;
                let bad = match op {
                    BinaryOp::Add => !matches!(ty, IrType::Int | IrType::Float | IrType::String | IrType::Unknown),
                    _ => !matches!(ty, IrType::Int | IrType::Float | IrType::Unknown),
                };
                if bad { Err(mismatch) } else { Ok(()) }
            },
            Instr::Compare { dst, left, right, .. } => {
                Self::verify_operand(program, func, left)?;
                Self::verify_operand(program, func, right)?;
                Self::check_temp_type(func, *dst, &k.boolean)?;
                match (Self::type_of_operand(program, func, left, &k), Self::type_of_operand(program, func, right, &k)) {
                    (Some(a), Some(b)) => if types_compatible(a, b) { Ok(()) } else { Err(mismatch) },
                    _ => Ok(()),
                }
            },
            Instr::Logic { dst, left, right, .. } => {
                Self::verify_operand(program, func, left)?;
                Self::verify_operand(program, func, right)?;
                Self::check_temp_type(func, *dst, &k.boolean)?;
                Self::check_operand_type(program, func, left, &k.boolean, &k)?;
                Self::check_operand_type(program, func, right, &k.boolean, &k)
            },
            Instr::StoreGlobal { global, value, .. } => match find_global(program, *global) {
                None => Err(IrVerifyError::UnknownGlobal),
                Some(g) => {
                    Self::verify_operand(program, func, value)?;
                    Self::check_operand_type(program, func, value, &g.ty, &k)
                },
            },
            Instr::StoreLocal { local, value, .. } => match find_local(func, *local) {
                None => Err(IrVerifyError::UnknownLocal { function: func.name.clone() }),
                Some(l) => {
                    Self::verify_operand(program, func, value)?;
                    Self::check_operand_type(program, func, value, &l.ty, &k)
                },
            },
            Instr::VecPush { vec, value } => {
                Self::verify_operand(program, func, vec)?;
                Self::verify_operand(program, func, value)?;
                let elem = Self::elem_type_of(program, func, vec, &k);
                if matches!(elem, IrType::Unknown) {
                    Ok(())
                } else {
                    Self::check_operand_type(program, func, value, elem, &k)
                }
            },
            Instr::MakeArray { elem_ty, items, .. } => Self::check_items(program, func, items, elem_ty, &k),
            Instr::MakeArrayRepeat { elem_ty, value, .. } => {
                Self::verify_operand(program, func, value)?;
                Self::check_operand_type(program, func, value, elem_ty, &k)
            },
            Instr::VecLen { dst, vec } => {
                Self::verify_operand(program, func, vec)?;
                Self::check_temp_type(func, *dst, &k.int)?;
                match Self::type_of_operand(program, func, vec, &k) {
                    Some(IrType::Vec { .. }) => Ok(()),
                    _ => Err(mismatch),
                }
            },
            Instr::ArrayGet { dst, elem_ty, array, index } | Instr::VecGet { dst, elem_ty, vec: array, index } => {
                Self::verify_operand(program, func, array)?;
                Self::verify_operand(program, func, index)?;
                Self::check_operand_type(program, func, index, &k.int, &k)?;
                Self::check_temp_type(func, *dst, elem_ty)?;
                let elem = Self::elem_type_of(program, func, array, &k);
                if !matches!(elem, IrType::Unknown) && !types_compatible(elem_ty, elem) {
                    Err(mismatch)
                } else {
                    Ok(())
                }
            },
            Instr::ArraySet { array, index, value, .. } | Instr::VecSet { vec: array, index, value, .. } => {
                Self::verify_operand(program, func, array)?;
                Self::verify_operand(program, func, index)?;
                Self::verify_operand(program, func, value)?;
                Self::check_operand_type(program, func, index, &k.int, &k)?;
                let elem = Self::elem_type_of(program, func, array, &k);
                if matches!(elem, IrType::Unknown) {
                    Ok(())
                } else {
                    Self::check_operand_type(program, func, value, elem, &k)
                }
            },
            Instr::VecDelete { vec, index, .. } => {
                Self::verify_operand(program, func, vec)?;
                Self::verify_operand(program, func, index)?;
                Self::check_operand_type(program, func, index, &k.int, &k)
            },
            Instr::MakeStruct { struct_id, fields, .. } => match find_struct(program, *struct_id) {
                None => Err(IrVerifyError::UnknownStruct { function: func.name.clone() }),
                Some(s) => if s.fields.len() != fields.len() {
                    Err(bad_call)
                } else {
                    Self::check_fields(program, func, fields, &s.fields, &k)
                },
            },
            Instr::StructGet { dst, ty, base, field } => {
                Self::verify_operand(program, func, base)?;
                Self::check_field_ref(program, func, base, field, &k)?;
                Self::check_temp_type(func, *dst, ty)?;
                match Self::type_of_field(program, func, base, field, &k) {
                    Some(e) => if types_compatible(ty, e) { Ok(()) } else { Err(mismatch) },
                    None => Ok(()),
                }
            },
            Instr::StructSet { base, field, value, .. } => {
                Self::verify_operand(program, func, base)?;
                Self::check_field_ref(program, func, base, field, &k)?;
                Self::verify_operand(program, func, value)?;
                match Self::type_of_field(program, func, base, field, &k) {
                    Some(e) => Self::check_operand_type(program, func, value, e, &k),
                    None => Ok(()),
                }
            },
            Instr::CallDirect { dst, ret_ty, function, args } => match find_function(program, *function) {
                None => Err(IrVerifyError::UnknownFunctionTarget { function: func.name.clone() }),
                Some(t) => {
                    if t.params.len() != args.len() {
                        return Err(bad_call);
                    }
                    Self::check_args(program, func, args, &t.params, &k)?;
                    if !types_compatible(ret_ty, &t.ret_ty) {
                        return Err(bad_call);
                    }
                    match dst {
                        Some(d) => Self::check_temp_type(func, *d, ret_ty),
                        None => Ok(()),
                    }
                },
            },
            Instr::CallBuiltin { args, .. } => Self::verify_operand_list(program, func, args),
            Instr::CallIndirect { ret_ty, callee, args, .. } => {
                Self::verify_operand(program, func, callee)?;
                Self::verify_operand_list(program, func, args)?;
                match Self::type_of_operand(program, func, callee, &k) {
                    None => Ok(()),
                    Some(IrType::Unknown) => Ok(()),
                    Some(IrType::Fn { params, ret }) => {
                        if params.len() != args.len() || !types_compatible(ret_ty, ret) {
                            return Err(bad_call);
                        }
                        Self::check_typed(program, func, args, params, &k)
                    },
                    Some(_) => Err(bad_call),
                }
            },
            Instr::LoadGlobal { dst, ty, global } => match find_global(program, *global) {
                None => Err(IrVerifyError::UnknownGlobal),
                Some(g) => {
                    Self::check_temp_type(func, *dst, ty)?;
                    if types_compatible(ty, &g.ty) { Ok(()) } else { Err(mismatch) }
                },
            },
            Instr::LoadLocal { dst, ty, local } => match find_local(func, *local) {
                None => Err(IrVerifyError::UnknownLocal { function: func.name.clone() }),
                Some(l) => {
                    Self::check_temp_type(func, *dst, ty)?;
                    if types_compatible(ty, &l.ty) { Ok(()) } else { Err(mismatch) }
                },
            },
            Instr::MakeClosure { dst, function } => match find_function(program, *function) {
                None => Err(IrVerifyError::UnknownFunctionTarget { function: func.name.clone() }),
                Some(t) => match find_temp(func, *dst) {
                    None => Err(IrVerifyError::UnknownTemp { function: func.name.clone() }),
                    Some(tmp) => if Self::closure_fits_function(&tmp.ty, t) { Ok(()) } else { Err(bad_call) },
                },
            },
        }
    }
}

proof fn lemma_no_function_fails_before(program: IrProgram, i: int)
    requires
        0 <= i <= program.functions@.len(),
        forall|j: int| 0 <= j < i ==> function_failure(program, #[trigger] program.functions@[j]) is None,
    ensures
        functions_failure(program, i) is None,
    decreases i,
{
    if i > 0 {
        lemma_no_function_fails_before(program, i - 1);
    }
}

/// Verifying a program fails exactly as verifying its first failing
/// function does, the functions taken in order.
pub proof fn lemma_program_fails_as_first_failing_function(program: IrProgram, i: int)
    requires
        0 <= i < program.functions@.len(),
        forall|j: int| 0 <= j < i ==> function_failure(program, #[trigger] program.functions@[j]) is None,
        function_failure(program, program.functions@[i]) is Some,
    ensures
        program_failure(program) == Some((function_failure(program, program.functions@[i])->Some_0, program.functions@[i].name@)),
{
    lemma_no_function_fails_before(program, i);
    lemma_functions_mono(program, i + 1, program.functions@.len() as int);
}

/// Where no function fails, verifying a program fails only for a module
/// initializer that names no function.
pub proof fn lemma_program_verdict_without_failing_function(program: IrProgram)
    requires
        forall|j: int| 0 <= j < program.functions@.len() ==> function_failure(program, #[trigger] program.functions@[j]) is None,
    ensures
        program_failure(program) == match program.module_init {
            Some(init) => if function_of(program, init.function) is Some {
                None
            } else {
                Some((Failure::UnknownModuleInitFunction, Seq::<char>::empty()))
            },
            None => None,
        },
{
    lemma_no_function_fails_before(program, program.functions@.len() as int);
}

/// `results` are what `verify_function` gives for each function of
/// `program`, in order.
pub open spec fn function_verdicts(program: IrProgram, results: Seq<Result<(), IrVerifyError>>) -> bool {
    &&& results.len() == program.functions@.len()
    &&& forall|i: int| 0 <= i < results.len()
        ==> outcome(#[trigger] results[i], function_failure(program, program.functions@[i]), program.functions@[i].name@)
}

/// Where `verify_function` succeeds on the functions before the `i`th and
/// fails on it, verifying the program fails with the failure of that
/// function's error.
pub proof fn lemma_program_fails_as_first_failing_call(program: IrProgram, results: Seq<Result<(), IrVerifyError>>, i: int)
    requires
        function_verdicts(program, results),
        0 <= i < results.len(),
        forall|j: int| 0 <= j < i ==> (#[trigger] results[j]) is Ok,
        results[i] is Err,
    ensures
        program_failure(program) matches Some((f, name)) && name == program.functions@[i].name@
            && reports(results[i]->Err_0, f, name),
{
    assert forall|j: int| 0 <= j < i implies function_failure(program, #[trigger] program.functions@[j]) is None by {
        assert(outcome(results[j], function_failure(program, program.functions@[j]), program.functions@[j].name@));
    }
    assert(outcome(results[i], function_failure(program, program.functions@[i]), program.functions@[i].name@));
    lemma_program_fails_as_first_failing_function(program, i);
}

/// Where `verify_function` succeeds on every function, verifying the
/// program fails only for a module initializer that names no function.
pub proof fn lemma_program_verdict_when_every_call_succeeds(program: IrProgram, results: Seq<Result<(), IrVerifyError>>)
    requires
        function_verdicts(program, results),
        forall|j: int| 0 <= j < results.len() ==> (#[trigger] results[j]) is Ok,
    ensures
        program_failure(program) == match program.module_init {
            Some(init) => if function_of(program, init.function) is Some {
                None
            } else {
                Some((Failure::UnknownModuleInitFunction, Seq::<char>::empty()))
            },
            None => None,
        },
{
    assert forall|j: int| 0 <= j < program.functions@.len() implies function_failure(program, #[trigger] program.functions@[j]) is None by {
        assert(outcome(results[j], function_failure(program, program.functions@[j]), program.functions@[j].name@));
    }
    lemma_program_verdict_without_failing_function(program);
}

proof fn lemma_first_match_is_an_element<A>(s: Seq<A>, p: spec_fn(A) -> bool)
    ensures
        (exists|i: int| 0 <= i < s.len() && p(#[trigger] s[i])) ==> first_match(s, p) is Some,
        first_match(s, p) matches Some(x) ==> exists|j: int| 0 <= j < s.len() && #[trigger] s[j] == x && p(x),
    decreases s.len(),
{
    if s.len() > 0 {
        lemma_first_match_is_an_element(s.drop_first(), p);
        if exists|i: int| 0 <= i < s.len() && p(#[trigger] s[i]) {
            let i = choose|i: int| 0 <= i < s.len() && p(#[trigger] s[i]);
            if i > 0 {
                assert(s.drop_first()[i - 1] == s[i]);
            }
        }
        if let Some(x) = first_match(s.drop_first(), p) {
            let j = choose|j: int| 0 <= j < s.drop_first().len() && #[trigger] s.drop_first()[j] == x && p(x);
            assert(s[j + 1] == x);
        }
    }
}

/// `func` declares a temp with id `id`, and every temp it declares with that id has type `ty`.
pub open spec fn temp_declared_as(func: IrFunction, id: TempId, ty: IrType) -> bool {
    &&& exists|i: int| 0 <= i < func.temps@.len() && #[trigger] func.temps@[i].id == id
    &&& forall|i: int| 0 <= i < func.temps@.len() && #[trigger] func.temps@[i].id == id ==> func.temps@[i].ty == ty
}

proof fn lemma_declared_temp(func: IrFunction, id: TempId, ty: IrType)
    requires
        temp_declared_as(func, id, ty),
    ensures
        temp_of(func, id) matches Some(t) && t.ty == ty,
{
    lemma_first_match_is_an_element(func.temps@, temp_id_is(id));
    let i = choose|i: int| 0 <= i < func.temps@.len() && #[trigger] func.temps@[i].id == id;
    assert(temp_id_is(id)(func.temps@[i]));
    let t = temp_of(func, id)->Some_0;
    let j = choose|j: int| 0 <= j < func.temps@.len() && #[trigger] func.temps@[j] == t && temp_id_is(id)(t);
    assert(func.temps@[j].id == id);
}

/// The verifier accepts well-typed arithmetic: an arithmetic instruction on
/// two temps into a temp, all three declared with the instruction's type,
/// passes when that type is `Int` or `Float`, or `String` for an addition.
pub proof fn lemma_well_typed_arithmetic_passes(program: IrProgram, func: IrFunction, op: BinaryOp, ty: IrType, dst: TempId, left: TempId, right: TempId)
    requires
        ty is Int || ty is Float || (op == BinaryOp::Add && ty is String),
        temp_declared_as(func, dst, ty),
        temp_declared_as(func, left, ty),
        temp_declared_as(func, right, ty),
    ensures
        instr_failure(program, func, Instr::Binary { dst, ty, op, left: Operand::Temp(left), right: Operand::Temp(right) }) is None,
{
    lemma_declared_temp(func, dst, ty);
    lemma_declared_temp(func, left, ty);
    lemma_declared_temp(func, right, ty);
}

/// The verifier accepts well-typed unary operations: negation of a temp
/// into a temp, both declared `Int` or both `Float`, and `not` of a temp
/// into a temp, both declared `Bool`, pass.
pub proof fn lemma_well_typed_unary_passes(program: IrProgram, func: IrFunction, op: UnaryOp, ty: IrType, dst: TempId, operand: TempId)
    requires
        (op == UnaryOp::Neg && (ty is Int || ty is Float)) || (op == UnaryOp::Not && ty is Bool),
        temp_declared_as(func, dst, ty),
        temp_declared_as(func, operand, ty),
    ensures
        instr_failure(program, func, Instr::Unary { dst, ty, op, operand: Operand::Temp(operand) }) is None,
{
    lemma_declared_temp(func, dst, ty);
    lemma_declared_temp(func, operand, ty);
}

/// The verifier accepts well-typed comparisons and logic: two temps of one
/// declared type compared into a `Bool` temp pass, and so do two `Bool`
/// temps joined by `and` or `or` into a `Bool` temp.
pub proof fn lemma_well_typed_compare_and_logic_pass(program: IrProgram, func: IrFunction, cmp_op: CmpOp, logic_op: LogicOp, ty: IrType, dst: TempId, left: TempId, right: TempId)
    requires
        temp_declared_as(func, dst, IrType::Bool),
        temp_declared_as(func, left, ty),
        temp_declared_as(func, right, ty),
    ensures
        instr_failure(program, func, Instr::Compare { dst, op: cmp_op, left: Operand::Temp(left), right: Operand::Temp(right) }) is None,
        ty is Bool ==> instr_failure(program, func, Instr::Logic { dst, op: logic_op, left: Operand::Temp(left), right: Operand::Temp(right) }) is None,
{
    lemma_declared_temp(func, dst, IrType::Bool);
    lemma_declared_temp(func, left, ty);
    lemma_declared_temp(func, right, ty);
    assert(compatible_types(ty, ty)) by {
        lemma_compatible_reflexive(ty);
    }
}

proof fn lemma_compatible_reflexive(t: IrType)
    ensures
        compatible_types(t, t),
    decreases t,
{
    match t {
        IrType::Array { elem, .. } => lemma_compatible_reflexive(*elem),
        IrType::Vec { elem } => lemma_compatible_reflexive(*elem),
        IrType::Fn { params, ret } => {
            assert forall|i: int| 0 <= i < params@.len() implies compatible_types(#[trigger] params@[i], params@[i]) by {
                assert(decreases_to!(t => params@[i]));
                lemma_compatible_reflexive(params@[i]);
            }
            lemma_compatible_reflexive(*ret);
        },
        _ => {},
    }
}

/// The verifier rejects arithmetic on booleans: an arithmetic instruction of
/// declared type `Bool` on `Bool` temps into a `Bool` temp fails with a type mismatch.
pub proof fn lemma_arithmetic_on_bool_fails(program: IrProgram, func: IrFunction, op: BinaryOp, dst: TempId, left: TempId, right: TempId)
    requires
        temp_declared_as(func, dst, IrType::Bool),
        temp_declared_as(func, left, IrType::Bool),
        temp_declared_as(func, right, IrType::Bool),
    ensures
        instr_failure(program, func, Instr::Binary { dst, ty: IrType::Bool, op, left: Operand::Temp(left), right: Operand::Temp(right) })
            == Some(Failure::OperandTypeMismatch),
{
    lemma_declared_temp(func, dst, IrType::Bool);
    lemma_declared_temp(func, left, IrType::Bool);
    lemma_declared_temp(func, right, IrType::Bool);
}

/// The verifier rejects an operand whose declared type disagrees: an
/// arithmetic instruction of type `Int` into an `Int` temp, with a `Float`
/// temp as its left operand, fails with a type mismatch.
pub proof fn lemma_mismatched_operand_fails(program: IrProgram, func: IrFunction, op: BinaryOp, dst: TempId, left: TempId, right: Operand)
    requires
        temp_declared_as(func, dst, IrType::Int),
        temp_declared_as(func, left, IrType::Float),
        operand_failure(program, func, right) is None,
    ensures
        instr_failure(program, func, Instr::Binary { dst, ty: IrType::Int, op, left: Operand::Temp(left), right })
            == Some(Failure::OperandTypeMismatch),
{
    lemma_declared_temp(func, dst, IrType::Int);
    lemma_declared_temp(func, left, IrType::Float);
}

proof fn lemma_operands_prefix(program: IrProgram, func: IrFunction, s: Seq<Operand>, n: int)
    requires
        0 <= n <= s.len(),
        operands_failure(program, func, s.take(n)) is Some,
    ensures
        operands_failure(program, func, s) == operands_failure(program, func, s.take(n)),
    decreases s.len() - n,
{
    if n < s.len() {
        assert(s.take(n + 1).drop_last() =~= s.take(n));
        lemma_operands_prefix(program, func, s, n + 1);
    } else {
        assert(s.take(n) =~= s);
    }
}

proof fn lemma_instrs_prefix(program: IrProgram, func: IrFunction, s: Seq<Instr>, n: int)
    requires
        0 <= n <= s.len(),
        instrs_failure(program, func, s.take(n)) is Some,
    ensures
        instrs_failure(program, func, s) == instrs_failure(program, func, s.take(n)),
    decreases s.len() - n,
{
    if n < s.len() {
        assert(s.take(n + 1).drop_last() =~= s.take(n));
        lemma_instrs_prefix(program, func, s, n + 1);
    } else {
        assert(s.take(n) =~= s);
    }
}

proof fn lemma_blocks_mono(program: IrProgram, func: IrFunction, n1: int, n2: int)
    requires
        0 <= n1 <= n2,
        blocks_failure(program, func, n1) is Some,
    ensures
        blocks_failure(program, func, n2) == blocks_failure(program, func, n1),
    decreases n2 - n1,
{
    if n1 < n2 {
        lemma_blocks_mono(program, func, n1, n2 - 1);
    }
}

proof fn lemma_functions_mono(program: IrProgram, n1: int, n2: int)
    requires
        0 <= n1 <= n2,
        functions_failure(program, n1) is Some,
    ensures
        functions_failure(program, n2) == functions_failure(program, n1),
    decreases n2 - n1,
{
    if n1 < n2 {
        lemma_functions_mono(program, n1, n2 - 1);
    }
}

} // verus!
