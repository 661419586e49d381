//! Instructions lowered to calls of the runtime library.

use vstd::prelude::*;
use vstd::string::StringExecFns;

use crate::codegen::{texts, CodegenError, Fault};
use crate::codegen::llvm::instr_core::emitted_flag;
use crate::codegen::llvm::runtime::{
    array_get, array_repeat, array_set, builtin_call, emit_array_get, emit_array_set, emit_builtin_call,
    emit_indirect_call, emit_make_array, emit_make_array_repeat, emit_make_struct, emit_struct_get, emit_struct_set,
    emit_vec_delete, emit_vec_get, emit_vec_len, emit_vec_new, emit_vec_push, emit_vec_set, indirect_call, make_array,
    make_struct, struct_get, struct_set, vec_delete, vec_get, vec_len, vec_new, vec_push, vec_set, BuiltinCallInstr,
};
use crate::codegen::llvm::strings::StringLiterals;
use crate::codegen::llvm::value::{just, push_line, temp_lookup, Emitted, ValueNames};
use crate::ir::{Instr, IrFunction, IrProgram, IrType};
use crate::text::{decimal, usize_text};

verus! {

broadcast use vstd::std_specs::vec::group_vec_axioms;

/// Whether `emit_runtime_instr` lowers `instr`: builtin and indirect calls,
/// closures, and the array, vector and struct instructions.
pub open spec fn is_runtime_instr(instr: Instr) -> bool {
    ||| instr is CallBuiltin
    ||| instr is MakeClosure
    ||| instr is CallIndirect
    ||| instr is MakeArray
    ||| instr is MakeArrayRepeat
    ||| instr is ArrayGet
    ||| instr is ArraySet
    ||| instr is VecNew
    ||| instr is VecLen
    ||| instr is VecPush
    ||| instr is VecGet
    ||| instr is VecSet
    ||| instr is VecDelete
    ||| instr is MakeStruct
    ||| instr is StructGet
    ||| instr is StructSet
}

/// What `emit_runtime_instr` emits for `instr` from counter `c`: the runtime
/// lowering of its kind; a closure is its function's id in the temp's
/// register; nothing for any other instruction. A pushed value's element type
/// is left to inference.
pub open spec fn runtime_instr(known: Set<usize>, program: IrProgram, func: IrFunction, instr: Instr, c: nat,
    lits: Map<Seq<char>, Seq<char>>) -> Emitted
{
    match instr {
        Instr::CallBuiltin { dst, ret_ty, builtin, args } => builtin_call(known, func, dst, ret_ty, builtin, args@, c, lits),
        Instr::MakeClosure { dst, function } => match temp_lookup(known, dst.0) {
            Err(f) => just(c, Err(f)),
            Ok(d) => Emitted { lines: seq!["  "@ + d + " = add i32 0, "@ + decimal(function.0 as nat)], counter: c, value: Ok(seq![]) },
        },
        Instr::CallIndirect { dst, ret_ty, callee, args } => indirect_call(known, func, dst, ret_ty, callee, args@, c, lits),
        Instr::MakeArray { dst, elem_ty, items } => make_array(known, dst, elem_ty, items@, c, lits),
        Instr::MakeArrayRepeat { dst, elem_ty, value, size } => array_repeat(known, dst, elem_ty, value, size, c, lits),
        Instr::ArrayGet { dst, elem_ty, array, index } => array_get(known, dst, elem_ty, array, index, c, lits),
        Instr::ArraySet { elem_ty, array, index, value } => array_set(known, elem_ty, array, index, value, c, lits),
        Instr::VecNew { dst, .. } => {
            let e = vec_new(known, dst);
            Emitted { lines: e.lines, counter: c, value: e.value }
        },
        Instr::VecLen { dst, vec } => vec_len(known, dst, vec, c, lits),
        Instr::VecPush { vec, value } => vec_push(known, func, IrType::Unknown, vec, value, c, lits),
        Instr::VecGet { dst, elem_ty, vec, index } => vec_get(known, dst, elem_ty, vec, index, c, lits),
        Instr::VecSet { elem_ty, vec, index, value } => vec_set(known, elem_ty, vec, index, value, c, lits),
        Instr::VecDelete { dst, elem_ty, vec, index } => vec_delete(known, dst, elem_ty, vec, index, c, lits),
        Instr::MakeStruct { dst, struct_id, fields } => make_struct(known, program, dst, struct_id, fields@, c, lits),
        Instr::StructGet { dst, ty, base, field } => struct_get(known, dst, ty, base, field.index, c, lits),
        Instr::StructSet { base, field, value, ty } => struct_set(known, ty, base, field.index, value, c, lits),
        _ => just(c, Ok(seq![])),
    }
}

/// Lowers `instr` if it goes through the runtime library, telling whether it
/// did (see `runtime_instr`).
pub fn emit_runtime_instr(
    program: &IrProgram,
    func: &IrFunction,
    names: &ValueNames,
    instr: &Instr,
    lines: &mut Vec<String>,
    counter: &mut usize,
    string_literals: &StringLiterals,
) -> (r: Result<bool, CodegenError>)
    requires
        runtime_instr(names@, *program, *func, *instr, *old(counter) as nat, string_literals@).counter <= usize::MAX,
    ensures
        emitted_flag(runtime_instr(names@, *program, *func, *instr, *old(counter) as nat, string_literals@),
            old(lines)@, final(lines)@, *final(counter), r, is_runtime_instr(*instr)),
{
    let ghost start = texts(lines@);
    let r = match instr {
        Instr::CallBuiltin { dst, ret_ty, builtin, args } => {
            let call = BuiltinCallInstr { dst: *dst, ret_ty, builtin, args: args.as_slice() };
            emit_builtin_call(func, names, call, lines, counter, string_literals)
        },
        Instr::MakeClosure { dst, function } => {
            let dest = match names.temp(*dst) {
                Ok(d) => d,
                Err(err) => {
                    assert(start + seq![] =~= start);
                    return Err(err);
                },
            };
            let mut line = String::from_str("  ");
            line.append(dest);
            line.append(" = add i32 0, ");
            line.append(usize_text(function.0).as_str());
            push_line(lines, line);
            assert(texts(lines@) =~= start + runtime_instr(names@, *program, *func, *instr, *old(counter) as nat, string_literals@).lines);
            Ok(())
        },
        Instr::CallIndirect { dst, ret_ty, callee, args } => {
            emit_indirect_call(func, names, *dst, ret_ty, callee, args.as_slice(), lines, counter, string_literals)
        },
        Instr::MakeArray { dst, elem_ty, items } => {
            emit_make_array(func, names, *dst, elem_ty, items.as_slice(), lines, counter, string_literals)
        },
        Instr::MakeArrayRepeat { dst, elem_ty, value, size } => {
            emit_make_array_repeat(func, names, *dst, elem_ty, value, *size, lines, counter, string_literals)
        },
        Instr::ArrayGet { dst, elem_ty, array, index } => {
            emit_array_get(func, names, *dst, elem_ty, array, index, lines, counter, string_literals)
        },
        Instr::ArraySet { elem_ty, array, index, value } => {
            emit_array_set(func, names, elem_ty, array, index, value, lines, counter, string_literals)
        },
        Instr::VecNew { dst, .. } => emit_vec_new(names, *dst, lines),
        Instr::VecLen { dst, vec } => emit_vec_len(func, names, *dst, vec, lines, counter, string_literals),
        Instr::VecPush { vec, value } => {
            emit_vec_push(func, names, &IrType::Unknown, vec, value, lines, counter, string_literals)
        },
        Instr::VecGet { dst, elem_ty, vec, index } => {
            emit_vec_get(func, names, *dst, elem_ty, vec, index, lines, counter, string_literals)
        },
        Instr::VecSet { elem_ty, vec, index, value } => {
            emit_vec_set(func, names, elem_ty, vec, index, value, lines, counter, string_literals)
        },
        Instr::VecDelete { dst, elem_ty, vec, index } => {
            emit_vec_delete(func, names, *dst, elem_ty, vec, index, lines, counter, string_literals)
        },
        Instr::MakeStruct { dst, struct_id, fields } => {
            emit_make_struct(program, func, names, *dst, *struct_id, fields.as_slice(), lines, counter, string_literals)
        },
        Instr::StructGet { dst, ty, base, field } => {
            emit_struct_get(func, names, *dst, ty, base, field, lines, counter, string_literals)
        },
        Instr::StructSet { base, field, value, ty } => {
            emit_struct_set(func, names, ty, base, field, value, lines, counter, string_literals)
        },
        _ => {
            assert(start + seq![] =~= start);
            return Ok(false);
        },
    };
    match r {
        Ok(()) => Ok(true),
        Err(err) => Err(err),
    }
}

} // verus!
