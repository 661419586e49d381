//! Direct calls of the program's own functions.

use vstd::prelude::*;
use vstd::string::StringExecFns;

use crate::codegen::{texts, CodegenError, Fault};
use crate::codegen::llvm::runtime::{emit_typed_args, lemma_typed_args_grow, lemma_typed_args_same_types, no_destination_message, typed_args};
use crate::codegen::llvm::runtime_boxing::{emitted_unit, same_outcome};
use crate::codegen::llvm::strings::StringLiterals;
use crate::codegen::llvm::types::{llvm_ty, llvm_type};
use crate::codegen::llvm::value::{just, llvm_symbol, push_line, symbol_text, temp_lookup, then, Emitted, ValueNames};
use crate::ir::{copy_type, same_type, FunctionId, Instr, IrFunction, IrParam, IrProgram, IrType, Operand, TempId};
use crate::text::{decimal, usize_text};

verus! {

broadcast use vstd::std_specs::vec::group_vec_axioms;

/// Every instruction can be lowered as far as direct calls are concerned.
pub fn ensure_supported(instr: &Instr) -> (r: Result<(), CodegenError>)
    ensures
        r is Ok,
{
    Ok(())
}

/// A direct call as it stands in an instruction.
pub struct DirectCall<'a> {
    pub dst: Option<TempId>,
    pub ret_ty: &'a IrType,
    pub function: FunctionId,
    pub args: &'a [Operand],
}

/// The position of the first function of `funcs` with id `id`.
pub open spec fn find_function(funcs: Seq<IrFunction>, id: usize) -> Option<int>
    decreases funcs.len(),
{
    if funcs.len() == 0 {
        None
    } else {
        match find_function(funcs.drop_last(), id) {
            Some(i) => Some(i),
            None => if funcs.last().id.0 == id { Some(funcs.len() - 1) } else { None },
        }
    }
}

proof fn lemma_find_function(funcs: Seq<IrFunction>, id: usize, n: int)
    requires
        0 <= n <= funcs.len(),
        find_function(funcs.take(n), id) is Some,
    ensures
        find_function(funcs, id) == find_function(funcs.take(n), id),
    decreases funcs.len() - n,
{
    if n < funcs.len() {
        assert(funcs.take(n + 1).drop_last() =~= funcs.take(n));
        lemma_find_function(funcs, id, n + 1);
    } else {
        assert(funcs.take(n) =~= funcs);
    }
}

/// The position of the first function with id `id`.
pub fn position_of_function(funcs: &Vec<IrFunction>, id: FunctionId) -> (r: Option<usize>)
    ensures
        match r {
            Some(k) => find_function(funcs@, id.0) == Some(k as int) && k < funcs@.len() && funcs@[k as int].id == id,
            None => find_function(funcs@, id.0) is None,
        },
{
    let mut k: usize = 0;
    while k < funcs.len()
        invariant
            k <= funcs@.len(),
            find_function(funcs@.take(k as int), id.0) is None,
        decreases funcs@.len() - k,
    {
        assert(funcs@.take(k + 1).drop_last() =~= funcs@.take(k as int));
        if funcs[k].id == id {
            proof {
                lemma_find_function(funcs@, id.0, k + 1);
            }
            return Some(k);
        }
        k += 1;
    }
    assert(funcs@.take(k as int) =~= funcs@);
    None
}

/// The types of a parameter list.
pub open spec fn param_types(params: Seq<IrParam>) -> Seq<IrType> {
    params.map_values(|p: IrParam| p.ty)
}

/// The message of a direct call of an unknown function.
pub open spec fn unknown_callee_message(id: usize) -> Seq<char> {
    "unknown callee FunctionId("@ + decimal(id as nat) + ")"@
}

/// What `emit_direct_call` emits from counter `c`: nothing unless the first
/// function of `program` with the callee's id exists and takes as many
/// parameters as there are arguments; then the arguments, each loaded as its
/// parameter's type, and the call of the callee's symbol: a plain call when
/// it returns nothing, else a call into the register of `dst`.
pub open spec fn direct_call(known: Set<usize>, program: IrProgram, dst: Option<TempId>, ret_ty: IrType, function: FunctionId,
    args: Seq<Operand>, c: nat, lits: Map<Seq<char>, Seq<char>>) -> Emitted
{
    match find_function(program.functions@, function.0) {
        None => just(c, Err(Fault::InvalidIr(unknown_callee_message(function.0)))),
        Some(k) => {
            let callee = program.functions@[k];
            if callee.params@.len() != args.len() {
                just(c, Err(Fault::InvalidIr("call arity mismatch for "@ + callee.name@)))
            } else {
                then(typed_args(known, args, param_types(callee.params@), c, lits), |joined: Seq<char>, c1: nat|
                    match llvm_type(ret_ty) {
                        Err(f) => just(c1, Err(f)),
                        Ok(rt) => if ret_ty is Void {
                            Emitted { lines: seq!["  call "@ + rt + " "@ + symbol_text(callee.name@) + "("@ + joined + ")"@], counter: c1, value: Ok(seq![]) }
                        } else {
                            match dst {
                                None => just(c1, Err(Fault::InvalidIr(no_destination_message("direct"@)))),
                                Some(d) => match temp_lookup(known, d.0) {
                                    Err(f) => just(c1, Err(f)),
                                    Ok(dn) => Emitted {
                                        lines: seq!["  "@ + dn + " = call "@ + rt + " "@ + symbol_text(callee.name@) + "("@ + joined + ")"@],
                                        counter: c1,
                                        value: Ok(seq![]),
                                    },
                                },
                            }
                        },
                    })
            }
        },
    }
}

/// Calls a function of the program directly (see `direct_call`).
#[verifier::rlimit(30)]
pub fn emit_direct_call(
    program: &IrProgram,
    func: &IrFunction,
    names: &ValueNames,
    call: DirectCall<'_>,
    lines: &mut Vec<String>,
    counter: &mut usize,
    string_literals: &StringLiterals,
) -> (r: Result<(), CodegenError>)
    requires
        direct_call(names@, *program, call.dst, *call.ret_ty, call.function, call.args@, *old(counter) as nat, string_literals@).counter <= usize::MAX,
    ensures
        emitted_unit(direct_call(names@, *program, call.dst, *call.ret_ty, call.function, call.args@, *old(counter) as nat, string_literals@),
            old(lines)@, final(lines)@, *final(counter), r),
{
    let ghost start = texts(lines@);
    let ghost c0 = *counter as nat;
    let ghost lits = string_literals@;
    let ghost e = direct_call(names@, *program, call.dst, *call.ret_ty, call.function, call.args@, c0, lits);
    let k = match position_of_function(&program.functions, call.function) {
        Some(k) => k,
        None => {
            assert(start + seq![] =~= start);
            let mut msg = String::from_str("unknown callee FunctionId(");
            msg.append(usize_text(call.function.0).as_str());
            msg.append(")");
            return Err(CodegenError::InvalidIr(msg));
        },
    };
    let callee = &program.functions[k];
    if callee.params.len() != call.args.len() {
        assert(start + seq![] =~= start);
        let mut msg = String::from_str("call arity mismatch for ");
        msg.append(callee.name.as_str());
        return Err(CodegenError::InvalidIr(msg));
    }
    let mut types: Vec<IrType> = Vec::new();
    let mut i: usize = 0;
    while i < callee.params.len()
        invariant
            i <= callee.params@.len(),
            types@.len() == i,
            forall|j: int| 0 <= j < i ==> same_type(#[trigger] types@[j], param_types(callee.params@)[j]),
        decreases callee.params@.len() - i,
    {
        types.push(copy_type(&callee.params[i].ty));
        i += 1;
    }
    proof {
        lemma_typed_args_same_types(names@, call.args@, types@, param_types(callee.params@), c0, lits);
        lemma_typed_args_grow(names@, call.args@, types@, c0, lits);
    }
    let joined = match emit_typed_args(func, names, call.args, &types, lines, counter, string_literals) {
        Ok(j) => j,
        Err(err) => {
            return Err(err);
        },
    };
    let ret_llvm_ty = match llvm_ty(call.ret_ty) {
        Ok(t) => t,
        Err(err) => {
            assert(texts(lines@) =~= start + e.lines);
            return Err(err);
        },
    };
    let symbol = llvm_symbol(callee.name.as_str());
    if call.ret_ty.is_void() {
        let mut line = String::from_str("  call ");
        line.append(ret_llvm_ty);
        line.append(" ");
        line.append(symbol.as_str());
        line.append("(");
        line.append(joined.as_str());
        line.append(")");
        push_line(lines, line);
        assert(texts(lines@) =~= start + e.lines);
        return Ok(());
    }
    let d = match call.dst {
        Some(d) => d,
        None => {
            assert(texts(lines@) =~= start + e.lines);
            let mut msg = String::from_str("non-void ");
            msg.append("direct");
            msg.append(" call must write to a destination temp");
            return Err(CodegenError::InvalidIr(msg));
        },
    };
    let dest = match names.temp(d) {
        Ok(n) => n,
        Err(err) => {
            assert(texts(lines@) =~= start + e.lines);
            return Err(err);
        },
    };
    let mut line = String::from_str("  ");
    line.append(dest);
    line.append(" = call ");
    line.append(ret_llvm_ty);
    line.append(" ");
    line.append(symbol.as_str());
    line.append("(");
    line.append(joined.as_str());
    line.append(")");
    push_line(lines, line);
    assert(texts(lines@) =~= start + e.lines);
    Ok(())
}

} // verus!
