//! Loads and stores of globals and locals, and direct calls.

use vstd::prelude::*;
use vstd::string::StringExecFns;

use crate::codegen::{texts, CodegenError, Fault};
use crate::codegen::llvm::calls::{direct_call, emit_direct_call, DirectCall};
use crate::codegen::llvm::runtime_boxing::{appended, same_outcome};
use crate::codegen::llvm::strings::StringLiterals;
use crate::codegen::llvm::types::{llvm_ty, llvm_type};
use crate::codegen::llvm::value::{
    global_symbol, global_symbol_text, just, lemma_load_counter, load, load_line, local_slot, local_slot_text, operand_load,
    push_line, temp_lookup, then, Emitted, ValueNames,
};
use crate::ir::{Instr, IrFunction, IrProgram};

verus! {

broadcast use vstd::std_specs::vec::group_vec_axioms;

/// `after` ends with what `e` appends to `before`, `counter` is its counter,
/// `r` fails as `e` does, and where it succeeds it tells whether the
/// instruction was one of those `handled`.
pub open spec fn emitted_flag(e: Emitted, before: Seq<String>, after: Seq<String>, counter: usize, r: Result<bool, CodegenError>, handled: bool) -> bool {
    &&& appended(before, after, e.lines)
    &&& counter == e.counter
    &&& match e.value {
        Ok(_) => r == Ok::<bool, CodegenError>(handled),
        Err(f) => r matches Err(x) && x@ == f,
    }
}

/// The line that stores `value` of LLVM type `ty` into `slot`.
pub open spec fn store_line(ty: Seq<char>, value: Seq<char>, slot: Seq<char>) -> Seq<char> {
    "  store "@ + ty + " "@ + value + ", ptr "@ + slot + ", align 8"@
}

/// Whether `emit_core_instr` lowers `instr`: loads and stores of globals and
/// locals, and direct calls.
pub open spec fn is_core_instr(instr: Instr) -> bool {
    ||| instr is LoadGlobal
    ||| instr is StoreGlobal
    ||| instr is LoadLocal
    ||| instr is StoreLocal
    ||| instr is CallDirect
}

/// What `emit_core_instr` emits for `instr` from counter `c`: a load from the
/// slot into the temp's register, a store of the loaded value into the
/// slot, or the direct call (see `direct_call`); nothing for any other instruction.
pub open spec fn core_instr(known: Set<usize>, program: IrProgram, instr: Instr, c: nat, lits: Map<Seq<char>, Seq<char>>) -> Emitted {
    match instr {
        Instr::LoadGlobal { dst, ty, global } => slot_load(known, dst, ty, global_symbol(global.0), c),
        Instr::StoreGlobal { global, ty, value } => slot_store_value(known, ty, value, global_symbol(global.0), c, lits),
        Instr::LoadLocal { dst, ty, local } => slot_load(known, dst, ty, local_slot(local.0), c),
        Instr::StoreLocal { local, ty, value } => slot_store_value(known, ty, value, local_slot(local.0), c, lits),
        Instr::CallDirect { dst, ret_ty, function, args } => direct_call(known, program, dst, ret_ty, function, args@, c, lits),
        _ => just(c, Ok(seq![])),
    }
}

/// What loading `slot` into the register of `dst` as a value of type `ty` emits.
pub open spec fn slot_load(known: Set<usize>, dst: crate::ir::TempId, ty: crate::ir::IrType, slot: Seq<char>, c: nat) -> Emitted {
    match temp_lookup(known, dst.0) {
        Err(f) => just(c, Err(f)),
        Ok(d) => match llvm_type(ty) {
            Err(f) => just(c, Err(f)),
            Ok(t) => Emitted { lines: seq![load_line(d, t, slot)], counter: c, value: Ok(seq![]) },
        },
    }
}

/// What storing `value`, loaded as a value of type `ty`, into `slot` emits from counter `c`.
pub open spec fn slot_store_value(known: Set<usize>, ty: crate::ir::IrType, value: crate::ir::Operand, slot: Seq<char>, c: nat, lits: Map<Seq<char>, Seq<char>>) -> Emitted {
    then(load(known, value, c, llvm_type(ty), lits), |v: Seq<char>, c1: nat|
        match llvm_type(ty) {
            Err(f) => just(c1, Err(f)),
            Ok(t) => Emitted { lines: seq![store_line(t, v, slot)], counter: c1, value: Ok(seq![]) },
        })
}

fn emit_slot_load(names: &ValueNames, dst: crate::ir::TempId, ty: &crate::ir::IrType, slot: &str, lines: &mut Vec<String>) -> (r: Result<(), CodegenError>)
    ensures
        appended(old(lines)@, final(lines)@, slot_load(names@, dst, *ty, slot@, 0).lines),
        same_outcome(slot_load(names@, dst, *ty, slot@, 0).value, r),
{
    let ghost start = texts(lines@);
    let dest = match names.temp(dst) {
        Ok(d) => d,
        Err(err) => {
            assert(start + seq![] =~= start);
            return Err(err);
        },
    };
    let t = match llvm_ty(ty) {
        Ok(t) => t,
        Err(err) => {
            assert(start + seq![] =~= start);
            return Err(err);
        },
    };
    let mut line = String::from_str("  ");
    line.append(dest);
    line.append(" = load ");
    line.append(t);
    line.append(", ptr ");
    line.append(slot);
    line.append(", align 8");
    push_line(lines, line);
    assert(texts(lines@) =~= start + slot_load(names@, dst, *ty, slot@, 0).lines);
    Ok(())
}

fn emit_slot_store_value(
    func: &IrFunction,
    names: &ValueNames,
    ty: &crate::ir::IrType,
    value: &crate::ir::Operand,
    slot: &str,
    lines: &mut Vec<String>,
    counter: &mut usize,
    string_literals: &StringLiterals,
) -> (r: Result<(), CodegenError>)
    requires
        slot_store_value(names@, *ty, *value, slot@, *old(counter) as nat, string_literals@).counter <= usize::MAX,
    ensures
        crate::codegen::llvm::runtime_boxing::emitted_unit(slot_store_value(names@, *ty, *value, slot@, *old(counter) as nat, string_literals@),
            old(lines)@, final(lines)@, *final(counter), r),
{
    let ghost start = texts(lines@);
    let ghost e = slot_store_value(names@, *ty, *value, slot@, *counter as nat, string_literals@);
    let v = match operand_load(names, value, func, lines, counter, ty, string_literals) {
        Ok(v) => v,
        Err(err) => {
            return Err(err);
        },
    };
    let t = match llvm_ty(ty) {
        Ok(t) => t,
        Err(err) => {
            assert(texts(lines@) =~= start + e.lines);
            return Err(err);
        },
    };
    let mut line = String::from_str("  store ");
    line.append(t);
    line.append(" ");
    line.append(v.as_str());
    line.append(", ptr ");
    line.append(slot);
    line.append(", align 8");
    push_line(lines, line);
    assert(texts(lines@) =~= start + e.lines);
    Ok(())
}

/// Lowers `instr` if it is a load or store of a global or local or a direct
/// call, telling whether it was (see `core_instr`).
pub fn emit_core_instr(
    program: &IrProgram,
    func: &IrFunction,
    names: &ValueNames,
    instr: &Instr,
    lines: &mut Vec<String>,
    counter: &mut usize,
    string_literals: &StringLiterals,
) -> (r: Result<bool, CodegenError>)
    requires
        core_instr(names@, *program, *instr, *old(counter) as nat, string_literals@).counter <= usize::MAX,
    ensures
        emitted_flag(core_instr(names@, *program, *instr, *old(counter) as nat, string_literals@),
            old(lines)@, final(lines)@, *final(counter), r, is_core_instr(*instr)),
{
    let ghost start = texts(lines@);
    match instr {
        Instr::LoadGlobal { dst, ty, global } => {
            let slot = global_symbol_text(global.0);
            match emit_slot_load(names, *dst, ty, slot.as_str(), lines) {
                Ok(()) => Ok(true),
                Err(err) => Err(err),
            }
        },
        Instr::LoadLocal { dst, ty, local } => {
            let slot = local_slot_text(local.0);
            match emit_slot_load(names, *dst, ty, slot.as_str(), lines) {
                Ok(()) => Ok(true),
                Err(err) => Err(err),
            }
        },
        Instr::StoreGlobal { global, ty, value } => {
            let slot = global_symbol_text(global.0);
            match emit_slot_store_value(func, names, ty, value, slot.as_str(), lines, counter, string_literals) {
                Ok(()) => Ok(true),
                Err(err) => Err(err),
            }
        },
        Instr::StoreLocal { local, ty, value } => {
            let slot = local_slot_text(local.0);
            match emit_slot_store_value(func, names, ty, value, slot.as_str(), lines, counter, string_literals) {
                Ok(()) => Ok(true),
                Err(err) => Err(err),
            }
        },
        Instr::CallDirect { dst, ret_ty, function, args } => {
            let call = DirectCall { dst: *dst, ret_ty, function: *function, args: args.as_slice() };
            match emit_direct_call(program, func, names, call, lines, counter, string_literals) {
                Ok(()) => Ok(true),
                Err(err) => Err(err),
            }
        },
        _ => {
            assert(start + seq![] =~= start);
            Ok(false)
        },
    }
}

} // verus!
