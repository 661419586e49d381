//! Instructions lowered to calls of the runtime library: builtins, indirect
//! calls, arrays, vectors and structs.

use vstd::prelude::*;
use vstd::string::StringExecFns;

use crate::codegen::{texts, CodegenError, Fault};
use crate::codegen::llvm::runtime_boxing::{
    abort_line, appended, arg_array, box_helper, box_helper_text, boxed, unbox_call, unbox_call_text, emit_abort_if_error, emit_boxed_arg_array,
    emit_boxed_operand, emit_free_boxed_value, emit_free_boxed_values, emit_unbox_value,
    emitted_unit, free_line, free_lines, inferred_type, infer_operand_type, lemma_boxed_counter,
    lemma_boxed_same_type, same_outcome, unboxed, BoxedArgs,
};
use crate::codegen::llvm::strings::StringLiterals;
use crate::codegen::llvm::types::{llvm_type, unsupported_type_message};
use crate::codegen::llvm::type_text::{type_debug, type_debug_text};
use crate::codegen::llvm::value::{
    just, lemma_load_counter, load, operand_load, push_line, scratch_name,
    temp_lookup, then, value_name, Emitted, ValueNames, symbol_text, llvm_symbol,
};
use crate::ir::{copy_type, same_type, types_equal, BuiltinCall, FieldRef, IrFunction, IrParam, IrProgram, IrStruct, IrType, Operand, StructId, TempId};
use crate::ir::consts::utf8;
use crate::text::{decimal, text_eq, u128_text, usize_text};
use crate::codegen::llvm::value::{literal_address_line, missing_literal_message};

verus! {

broadcast use vstd::std_specs::vec::group_vec_axioms;

/// A call of `helper` that reads slot `index` of `container` into `dest`.
pub open spec fn getter_line(dest: Seq<char>, helper: Seq<char>, container: Seq<char>, index: Seq<char>) -> Seq<char> {
    "  "@ + dest + " = call ptr @"@ + helper + "(ptr "@ + container + ", i64 "@ + index + ")"@
}

/// A call of `helper` that writes `value` into slot `index` of `container`.
pub open spec fn setter_line(helper: Seq<char>, container: Seq<char>, index: Seq<char>, value: Seq<char>) -> Seq<char> {
    "  call void @"@ + helper + "(ptr "@ + container + ", i64 "@ + index + ", ptr "@ + value + ")"@
}

fn getter_line_text(dest: &str, helper: &str, container: &str, index: &str) -> (r: String)
    ensures
        r@ == getter_line(dest@, helper@, container@, index@),
{
    let mut s = String::from_str("  ");
    s.append(dest);
    s.append(" = call ptr @");
    s.append(helper);
    s.append("(ptr ");
    s.append(container);
    s.append(", i64 ");
    s.append(index);
    s.append(")");
    s
}

fn setter_line_text(helper: &str, container: &str, index: &str, value: &str) -> (r: String)
    ensures
        r@ == setter_line(helper@, container@, index@, value@),
{
    let mut s = String::from_str("  call void @");
    s.append(helper);
    s.append("(ptr ");
    s.append(container);
    s.append(", i64 ");
    s.append(index);
    s.append(", ptr ");
    s.append(value);
    s.append(")");
    s
}

/// The lowering of the Array, Vec and Named types that arrays, vectors and
/// structs are loaded as: there is none.
pub open spec fn unlowered() -> Result<Seq<char>, Fault> {
    Err(Fault::Unsupported(unsupported_type_message()))
}

/// What reading an element emits from counter `c`: the container loaded with
/// the lowering `container_ty`, the index loaded as Int, the call of `helper` into the next
/// scratch register, the error check, and the result unboxed into `dst` as `elem_ty`.
pub open spec fn element_read(known: Set<usize>, helper: Seq<char>, dst: TempId, elem_ty: IrType, container: Operand,
    container_ty: Result<Seq<char>, Fault>, index: Operand, c: nat, lits: Map<Seq<char>, Seq<char>>) -> Emitted
{
    then(load(known, container, c, container_ty, lits), |a: Seq<char>, c1: nat|
        then(load(known, index, c1, llvm_type(IrType::Int), lits), |i: Seq<char>, c2: nat| {
            let u = unboxed(known, dst, elem_ty, value_name(c2));
            Emitted {
                lines: seq![getter_line(value_name(c2), helper, a, i), abort_line()] + u.lines,
                counter: c2 + 1,
                value: u.value,
            }
        }))
}

/// What writing an element emits from counter `c`: the container loaded with
/// the lowering `container_ty`, the index loaded as Int, the value boxed as `elem_ty`, the
/// call of `helper`, the error check, and the release of the boxed value.
pub open spec fn element_write(known: Set<usize>, helper: Seq<char>, elem_ty: IrType, container: Operand,
    container_ty: Result<Seq<char>, Fault>, index: Operand, value: Operand, c: nat, lits: Map<Seq<char>, Seq<char>>) -> Emitted
{
    then(load(known, container, c, container_ty, lits), |a: Seq<char>, c1: nat|
        then(load(known, index, c1, llvm_type(IrType::Int), lits), |i: Seq<char>, c2: nat|
            then(boxed(known, value, elem_ty, c2, lits), |b: Seq<char>, c3: nat|
                Emitted {
                    lines: seq![setter_line(helper, a, i, b), abort_line(), free_line(b)],
                    counter: c3,
                    value: Ok(seq![]),
                })))
}

#[verifier::rlimit(30)]
fn emit_element_read(
    func: &IrFunction,
    names: &ValueNames,
    helper: &str,
    dst: TempId,
    elem_ty: &IrType,
    container: &Operand,
    container_ty: &IrType,
    index: &Operand,
    lines: &mut Vec<String>,
    counter: &mut usize,
    string_literals: &StringLiterals,
) -> (r: Result<(), CodegenError>)
    requires
        element_read(names@, helper@, dst, *elem_ty, *container, llvm_type(*container_ty), *index, *old(counter) as nat, string_literals@).counter <= usize::MAX,
    ensures
        emitted_unit(element_read(names@, helper@, dst, *elem_ty, *container, llvm_type(*container_ty), *index, *old(counter) as nat, string_literals@),
            old(lines)@, final(lines)@, *final(counter), r),
{
    let ghost start = texts(lines@);
    let ghost e = element_read(names@, helper@, dst, *elem_ty, *container, llvm_type(*container_ty), *index, *counter as nat, string_literals@);
    let ghost la = load(names@, *container, *counter as nat, llvm_type(*container_ty), string_literals@);
    proof {
        lemma_load_counter(names@, *container, *counter as nat, llvm_type(*container_ty), string_literals@);
        lemma_load_counter(names@, *index, la.counter, llvm_type(IrType::Int), string_literals@);
    }
    let a = match operand_load(names, container, func, lines, counter, container_ty, string_literals) {
        Ok(v) => v,
        Err(err) => {
            return Err(err);
        },
    };
    let ghost mid = texts(lines@);
    let i = match operand_load(names, index, func, lines, counter, &IrType::Int, string_literals) {
        Ok(v) => v,
        Err(err) => {
            assert(texts(lines@) =~= start + e.lines);
            return Err(err);
        },
    };
    let raw = scratch_name(*counter);
    *counter += 1;
    push_line(lines, getter_line_text(raw.as_str(), helper, a.as_str(), i.as_str()));
    emit_abort_if_error(lines);
    let r = emit_unbox_value(names, dst, elem_ty, raw.as_str(), lines);
    assert(texts(lines@) =~= start + e.lines);
    r
}

#[verifier::rlimit(30)]
fn emit_element_write(
    func: &IrFunction,
    names: &ValueNames,
    helper: &str,
    elem_ty: &IrType,
    container: &Operand,
    container_ty: &IrType,
    index: &Operand,
    value: &Operand,
    lines: &mut Vec<String>,
    counter: &mut usize,
    string_literals: &StringLiterals,
) -> (r: Result<(), CodegenError>)
    requires
        element_write(names@, helper@, *elem_ty, *container, llvm_type(*container_ty), *index, *value, *old(counter) as nat, string_literals@).counter <= usize::MAX,
    ensures
        emitted_unit(element_write(names@, helper@, *elem_ty, *container, llvm_type(*container_ty), *index, *value, *old(counter) as nat, string_literals@),
            old(lines)@, final(lines)@, *final(counter), r),
{
    let ghost start = texts(lines@);
    let ghost e = element_write(names@, helper@, *elem_ty, *container, llvm_type(*container_ty), *index, *value, *counter as nat, string_literals@);
    let ghost la = load(names@, *container, *counter as nat, llvm_type(*container_ty), string_literals@);
    let ghost li = load(names@, *index, la.counter, llvm_type(IrType::Int), string_literals@);
    proof {
        lemma_load_counter(names@, *container, *counter as nat, llvm_type(*container_ty), string_literals@);
        lemma_load_counter(names@, *index, la.counter, llvm_type(IrType::Int), string_literals@);
        lemma_boxed_counter(names@, *value, *elem_ty, li.counter, string_literals@);
    }
    let a = match operand_load(names, container, func, lines, counter, container_ty, string_literals) {
        Ok(v) => v,
        Err(err) => {
            return Err(err);
        },
    };
    let i = match operand_load(names, index, func, lines, counter, &IrType::Int, string_literals) {
        Ok(v) => v,
        Err(err) => {
            assert(texts(lines@) =~= start + e.lines);
            return Err(err);
        },
    };
    let b = match emit_boxed_operand(func, names, value, elem_ty, lines, counter, string_literals) {
        Ok(v) => v,
        Err(err) => {
            assert(texts(lines@) =~= start + e.lines);
            return Err(err);
        },
    };
    push_line(lines, setter_line_text(helper, a.as_str(), i.as_str(), b.as_str()));
    emit_abort_if_error(lines);
    emit_free_boxed_value(b.as_str(), lines);
    assert(texts(lines@) =~= start + e.lines);
    Ok(())
}

/// What `emit_array_get` emits: an element read with `skp_rt_array_get`, the
/// array loaded as an array of `elem_ty`.
pub open spec fn array_get(known: Set<usize>, dst: TempId, elem_ty: IrType, array: Operand, index: Operand, c: nat, lits: Map<Seq<char>, Seq<char>>) -> Emitted {
    element_read(known, "skp_rt_array_get"@, dst, elem_ty, array, llvm_type(IrType::Array { elem: Box::new(elem_ty), size: 0 }), index, c, lits)
}

/// What `emit_vec_get` emits: an element read with `skp_rt_vec_get`, the
/// vector loaded as a vector of `elem_ty`.
pub open spec fn vec_get(known: Set<usize>, dst: TempId, elem_ty: IrType, vec: Operand, index: Operand, c: nat, lits: Map<Seq<char>, Seq<char>>) -> Emitted {
    element_read(known, "skp_rt_vec_get"@, dst, elem_ty, vec, llvm_type(IrType::Vec { elem: Box::new(elem_ty) }), index, c, lits)
}

/// What `emit_vec_delete` emits: an element read with `skp_rt_vec_delete`,
/// which removes the element it returns.
pub open spec fn vec_delete(known: Set<usize>, dst: TempId, elem_ty: IrType, vec: Operand, index: Operand, c: nat, lits: Map<Seq<char>, Seq<char>>) -> Emitted {
    element_read(known, "skp_rt_vec_delete"@, dst, elem_ty, vec, llvm_type(IrType::Vec { elem: Box::new(elem_ty) }), index, c, lits)
}

/// What `emit_array_set` emits: an element write with `skp_rt_array_set`.
pub open spec fn array_set(known: Set<usize>, elem_ty: IrType, array: Operand, index: Operand, value: Operand, c: nat, lits: Map<Seq<char>, Seq<char>>) -> Emitted {
    element_write(known, "skp_rt_array_set"@, elem_ty, array, llvm_type(IrType::Array { elem: Box::new(elem_ty), size: 0 }), index, value, c, lits)
}

/// What `emit_vec_set` emits: an element write with `skp_rt_vec_set`.
pub open spec fn vec_set(known: Set<usize>, elem_ty: IrType, vec: Operand, index: Operand, value: Operand, c: nat, lits: Map<Seq<char>, Seq<char>>) -> Emitted {
    element_write(known, "skp_rt_vec_set"@, elem_ty, vec, llvm_type(IrType::Vec { elem: Box::new(elem_ty) }), index, value, c, lits)
}

/// Reads element `index` of the array `array` into `dst` (see `array_get`).
pub fn emit_array_get(
    func: &IrFunction,
    names: &ValueNames,
    dst: TempId,
    elem_ty: &IrType,
    array: &Operand,
    index: &Operand,
    lines: &mut Vec<String>,
    counter: &mut usize,
    string_literals: &StringLiterals,
) -> (r: Result<(), CodegenError>)
    requires
        array_get(names@, dst, *elem_ty, *array, *index, *old(counter) as nat, string_literals@).counter <= usize::MAX,
    ensures
        emitted_unit(array_get(names@, dst, *elem_ty, *array, *index, *old(counter) as nat, string_literals@),
            old(lines)@, final(lines)@, *final(counter), r),
{
    let container_ty = IrType::Array { elem: Box::new(copy_type(elem_ty)), size: 0 };
    emit_element_read(func, names, "skp_rt_array_get", dst, elem_ty, array, &container_ty, index, lines, counter, string_literals)
}

/// Writes `value` into element `index` of the array `array` (see `array_set`).
pub fn emit_array_set(
    func: &IrFunction,
    names: &ValueNames,
    elem_ty: &IrType,
    array: &Operand,
    index: &Operand,
    value: &Operand,
    lines: &mut Vec<String>,
    counter: &mut usize,
    string_literals: &StringLiterals,
) -> (r: Result<(), CodegenError>)
    requires
        array_set(names@, *elem_ty, *array, *index, *value, *old(counter) as nat, string_literals@).counter <= usize::MAX,
    ensures
        emitted_unit(array_set(names@, *elem_ty, *array, *index, *value, *old(counter) as nat, string_literals@),
            old(lines)@, final(lines)@, *final(counter), r),
{
    let container_ty = IrType::Array { elem: Box::new(copy_type(elem_ty)), size: 0 };
    emit_element_write(func, names, "skp_rt_array_set", elem_ty, array, &container_ty, index, value, lines, counter, string_literals)
}

/// Reads element `index` of the vector `vec` into `dst` (see `vec_get`).
pub fn emit_vec_get(
    func: &IrFunction,
    names: &ValueNames,
    dst: TempId,
    elem_ty: &IrType,
    vec: &Operand,
    index: &Operand,
    lines: &mut Vec<String>,
    counter: &mut usize,
    string_literals: &StringLiterals,
) -> (r: Result<(), CodegenError>)
    requires
        vec_get(names@, dst, *elem_ty, *vec, *index, *old(counter) as nat, string_literals@).counter <= usize::MAX,
    ensures
        emitted_unit(vec_get(names@, dst, *elem_ty, *vec, *index, *old(counter) as nat, string_literals@),
            old(lines)@, final(lines)@, *final(counter), r),
{
    let container_ty = IrType::Vec { elem: Box::new(copy_type(elem_ty)) };
    emit_element_read(func, names, "skp_rt_vec_get", dst, elem_ty, vec, &container_ty, index, lines, counter, string_literals)
}

/// Removes element `index` of the vector `vec`, into `dst` (see `vec_delete`).
pub fn emit_vec_delete(
    func: &IrFunction,
    names: &ValueNames,
    dst: TempId,
    elem_ty: &IrType,
    vec: &Operand,
    index: &Operand,
    lines: &mut Vec<String>,
    counter: &mut usize,
    string_literals: &StringLiterals,
) -> (r: Result<(), CodegenError>)
    requires
        vec_delete(names@, dst, *elem_ty, *vec, *index, *old(counter) as nat, string_literals@).counter <= usize::MAX,
    ensures
        emitted_unit(vec_delete(names@, dst, *elem_ty, *vec, *index, *old(counter) as nat, string_literals@),
            old(lines)@, final(lines)@, *final(counter), r),
{
    let container_ty = IrType::Vec { elem: Box::new(copy_type(elem_ty)) };
    emit_element_read(func, names, "skp_rt_vec_delete", dst, elem_ty, vec, &container_ty, index, lines, counter, string_literals)
}

/// Writes `value` into element `index` of the vector `vec` (see `vec_set`).
pub fn emit_vec_set(
    func: &IrFunction,
    names: &ValueNames,
    elem_ty: &IrType,
    vec: &Operand,
    index: &Operand,
    value: &Operand,
    lines: &mut Vec<String>,
    counter: &mut usize,
    string_literals: &StringLiterals,
) -> (r: Result<(), CodegenError>)
    requires
        vec_set(names@, *elem_ty, *vec, *index, *value, *old(counter) as nat, string_literals@).counter <= usize::MAX,
    ensures
        emitted_unit(vec_set(names@, *elem_ty, *vec, *index, *value, *old(counter) as nat, string_literals@),
            old(lines)@, final(lines)@, *final(counter), r),
{
    let container_ty = IrType::Vec { elem: Box::new(copy_type(elem_ty)) };
    emit_element_write(func, names, "skp_rt_vec_set", elem_ty, vec, &container_ty, index, value, lines, counter, string_literals)
}

/// What `emit_vec_new` emits: a call of `skp_rt_vec_new` into the register of `dst`.
pub open spec fn vec_new(known: Set<usize>, dst: TempId) -> Emitted {
    match temp_lookup(known, dst.0) {
        Err(f) => just(0, Err(f)),
        Ok(d) => Emitted { lines: seq!["  "@ + d + " = call ptr @skp_rt_vec_new()"@], counter: 0, value: Ok(seq![]) },
    }
}

/// Makes an empty vector in `dst` (see `vec_new`).
pub fn emit_vec_new(names: &ValueNames, dst: TempId, lines: &mut Vec<String>) -> (r: Result<(), CodegenError>)
    ensures
        appended(old(lines)@, final(lines)@, vec_new(names@, dst).lines),
        same_outcome(vec_new(names@, dst).value, r),
{
    let ghost start = texts(lines@);
    let dest = match names.temp(dst) {
        Ok(d) => d,
        Err(e) => {
            assert(start + seq![] =~= start);
            return Err(e);
        },
    };
    let mut line = String::from_str("  ");
    line.append(dest);
    line.append(" = call ptr @skp_rt_vec_new()");
    push_line(lines, line);
    assert(texts(lines@) =~= start + vec_new(names@, dst).lines);
    Ok(())
}

/// What `emit_vec_len` emits from counter `c`: the vector loaded (as a vector
/// of unknown elements), then a call of `skp_rt_vec_len` into the register of `dst`.
pub open spec fn vec_len(known: Set<usize>, dst: TempId, vec: Operand, c: nat, lits: Map<Seq<char>, Seq<char>>) -> Emitted {
    then(load(known, vec, c, llvm_type(IrType::Vec { elem: Box::new(IrType::Unknown) }), lits), |v: Seq<char>, c1: nat|
        match temp_lookup(known, dst.0) {
            Err(f) => just(c1, Err(f)),
            Ok(d) => Emitted { lines: seq!["  "@ + d + " = call i64 @skp_rt_vec_len(ptr "@ + v + ")"@], counter: c1, value: Ok(seq![]) },
        })
}

/// The length of the vector `vec` into `dst` (see `vec_len`).
pub fn emit_vec_len(
    func: &IrFunction,
    names: &ValueNames,
    dst: TempId,
    vec: &Operand,
    lines: &mut Vec<String>,
    counter: &mut usize,
    string_literals: &StringLiterals,
) -> (r: Result<(), CodegenError>)
    requires
        vec_len(names@, dst, *vec, *old(counter) as nat, string_literals@).counter <= usize::MAX,
    ensures
        emitted_unit(vec_len(names@, dst, *vec, *old(counter) as nat, string_literals@),
            old(lines)@, final(lines)@, *final(counter), r),
{
    let ghost start = texts(lines@);
    let ghost e = vec_len(names@, dst, *vec, *counter as nat, string_literals@);
    let vec_ty = IrType::Vec { elem: Box::new(IrType::Unknown) };
    let v = match operand_load(names, vec, func, lines, counter, &vec_ty, string_literals) {
        Ok(v) => v,
        Err(err) => {
            return Err(err);
        },
    };
    let dest = match names.temp(dst) {
        Ok(d) => d,
        Err(err) => {
            assert(texts(lines@) =~= start + e.lines);
            return Err(err);
        },
    };
    let mut line = String::from_str("  ");
    line.append(dest);
    line.append(" = call i64 @skp_rt_vec_len(ptr ");
    line.append(v.as_str());
    line.append(")");
    push_line(lines, line);
    assert(texts(lines@) =~= start + e.lines);
    Ok(())
}

/// The element type under which `emit_vec_push` boxes the pushed value:
/// `elem_ty`, or the value's inferred type where `elem_ty` is Unknown.
pub open spec fn pushed_type(func: IrFunction, elem_ty: IrType, value: Operand) -> IrType {
    if elem_ty is Unknown { inferred_type(func, value) } else { elem_ty }
}

/// What `emit_vec_push` emits from counter `c`: the vector loaded, the value
/// boxed as the pushed type, the call of `skp_rt_vec_push`, the error check,
/// and the release of the boxed value.
pub open spec fn vec_push(known: Set<usize>, func: IrFunction, elem_ty: IrType, vec: Operand, value: Operand, c: nat, lits: Map<Seq<char>, Seq<char>>) -> Emitted {
    let elem = pushed_type(func, elem_ty, value);
    then(load(known, vec, c, llvm_type(IrType::Vec { elem: Box::new(elem) }), lits), |v: Seq<char>, c1: nat|
        then(boxed(known, value, elem, c1, lits), |b: Seq<char>, c2: nat|
            Emitted {
                lines: seq!["  call void @skp_rt_vec_push(ptr "@ + v + ", ptr "@ + b + ")"@, abort_line(), free_line(b)],
                counter: c2,
                value: Ok(seq![]),
            }))
}

/// Pushing with an `Unknown` element type emits exactly what pushing with
/// the value's inferred type emits, from the same counter.
pub proof fn lemma_vec_push_unknown_is_inferred(known: Set<usize>, func: IrFunction, vec: Operand, value: Operand, c: nat, lits: Map<Seq<char>, Seq<char>>)
    ensures
        vec_push(known, func, IrType::Unknown, vec, value, c, lits)
            == vec_push(known, func, inferred_type(func, value), vec, value, c, lits),
{
}

/// Two runs of `emit_vec_push` from the same lines and counter, one with an
/// `Unknown` element type and one with the value's inferred type, end with
/// the same lines, the same counter and the same outcome.
pub proof fn lemma_vec_push_runs_agree(
    known: Set<usize>,
    func: IrFunction,
    vec: Operand,
    value: Operand,
    c: usize,
    lits: Map<Seq<char>, Seq<char>>,
    before: Seq<String>,
    after_unknown: Seq<String>,
    after_inferred: Seq<String>,
    c_unknown: usize,
    c_inferred: usize,
    r_unknown: Result<(), CodegenError>,
    r_inferred: Result<(), CodegenError>,
)
    requires
        emitted_unit(vec_push(known, func, IrType::Unknown, vec, value, c as nat, lits), before, after_unknown, c_unknown, r_unknown),
        emitted_unit(vec_push(known, func, inferred_type(func, value), vec, value, c as nat, lits), before, after_inferred, c_inferred, r_inferred),
    ensures
        texts(after_unknown) == texts(after_inferred),
        c_unknown == c_inferred,
        r_unknown is Ok <==> r_inferred is Ok,
        r_unknown matches Err(e1) ==> (r_inferred matches Err(e2) && e1@ == e2@),
{
    lemma_vec_push_unknown_is_inferred(known, func, vec, value, c as nat, lits);
}

/// Pushes `value` onto the vector `vec` (see `vec_push`).
pub fn emit_vec_push(
    func: &IrFunction,
    names: &ValueNames,
    elem_ty: &IrType,
    vec: &Operand,
    value: &Operand,
    lines: &mut Vec<String>,
    counter: &mut usize,
    string_literals: &StringLiterals,
) -> (r: Result<(), CodegenError>)
    requires
        vec_push(names@, *func, *elem_ty, *vec, *value, *old(counter) as nat, string_literals@).counter <= usize::MAX,
    ensures
        emitted_unit(vec_push(names@, *func, *elem_ty, *vec, *value, *old(counter) as nat, string_literals@),
            old(lines)@, final(lines)@, *final(counter), r),
{
    let ghost start = texts(lines@);
    let ghost e = vec_push(names@, *func, *elem_ty, *vec, *value, *counter as nat, string_literals@);
    let ghost spec_elem = pushed_type(*func, *elem_ty, *value);
    let ghost lv = load(names@, *vec, *counter as nat, llvm_type(IrType::Vec { elem: Box::new(spec_elem) }), string_literals@);
    let elem = if matches!(elem_ty, IrType::Unknown) { infer_operand_type(func, value) } else { copy_type(elem_ty) };
    proof {
        lemma_load_counter(names@, *vec, *counter as nat, llvm_type(IrType::Vec { elem: Box::new(spec_elem) }), string_literals@);
        lemma_boxed_counter(names@, *value, spec_elem, lv.counter, string_literals@);
        lemma_boxed_same_type(names@, *value, elem, spec_elem, lv.counter, string_literals@);
    }
    let vec_ty = IrType::Vec { elem: Box::new(copy_type(&elem)) };
    let v = match operand_load(names, vec, func, lines, counter, &vec_ty, string_literals) {
        Ok(v) => v,
        Err(err) => {
            return Err(err);
        },
    };
    let b = match emit_boxed_operand(func, names, value, &elem, lines, counter, string_literals) {
        Ok(b) => b,
        Err(err) => {
            assert(texts(lines@) =~= start + e.lines);
            return Err(err);
        },
    };
    let mut line = String::from_str("  call void @skp_rt_vec_push(ptr ");
    line.append(v.as_str());
    line.append(", ptr ");
    line.append(b.as_str());
    line.append(")");
    push_line(lines, line);
    emit_abort_if_error(lines);
    emit_free_boxed_value(b.as_str(), lines);
    assert(texts(lines@) =~= start + e.lines);
    Ok(())
}

/// What `emit_make_array_repeat` emits from counter `c`: nothing unless `dst`
/// has a register; then the value boxed as `elem_ty`, a call of
/// `skp_rt_array_repeat` with `size` into that register, the error check, and
/// the release of the boxed value.
pub open spec fn array_repeat(known: Set<usize>, dst: TempId, elem_ty: IrType, value: Operand, size: usize, c: nat, lits: Map<Seq<char>, Seq<char>>) -> Emitted {
    match temp_lookup(known, dst.0) {
        Err(f) => just(c, Err(f)),
        Ok(d) => then(boxed(known, value, elem_ty, c, lits), |b: Seq<char>, c1: nat|
            Emitted {
                lines: seq!["  "@ + d + " = call ptr @skp_rt_array_repeat(ptr "@ + b + ", i64 "@ + decimal(size as nat) + ")"@,
                    abort_line(), free_line(b)],
                counter: c1,
                value: Ok(seq![]),
            }),
    }
}

/// Makes in `dst` an array of `size` copies of `value` (see `array_repeat`).
pub fn emit_make_array_repeat(
    func: &IrFunction,
    names: &ValueNames,
    dst: TempId,
    elem_ty: &IrType,
    value: &Operand,
    size: usize,
    lines: &mut Vec<String>,
    counter: &mut usize,
    string_literals: &StringLiterals,
) -> (r: Result<(), CodegenError>)
    requires
        array_repeat(names@, dst, *elem_ty, *value, size, *old(counter) as nat, string_literals@).counter <= usize::MAX,
    ensures
        emitted_unit(array_repeat(names@, dst, *elem_ty, *value, size, *old(counter) as nat, string_literals@),
            old(lines)@, final(lines)@, *final(counter), r),
{
    let ghost start = texts(lines@);
    let ghost e = array_repeat(names@, dst, *elem_ty, *value, size, *counter as nat, string_literals@);
    let dest = match names.temp(dst) {
        Ok(d) => d,
        Err(err) => {
            assert(start + seq![] =~= start);
            return Err(err);
        },
    };
    let b = match emit_boxed_operand(func, names, value, elem_ty, lines, counter, string_literals) {
        Ok(b) => b,
        Err(err) => {
            return Err(err);
        },
    };
    let mut line = String::from_str("  ");
    line.append(dest);
    line.append(" = call ptr @skp_rt_array_repeat(ptr ");
    line.append(b.as_str());
    line.append(", i64 ");
    line.append(usize_text(size).as_str());
    line.append(")");
    push_line(lines, line);
    emit_abort_if_error(lines);
    emit_free_boxed_value(b.as_str(), lines);
    assert(texts(lines@) =~= start + e.lines);
    Ok(())
}

/// What `emit_struct_get` emits from counter `c`: the struct loaded (as a
/// Named type, which has no lowering), a call of `skp_rt_struct_get` for
/// field position `index` into the next scratch register, the error check,
/// and the result unboxed into `dst` as `ty`.
pub open spec fn struct_get(known: Set<usize>, dst: TempId, ty: IrType, base: Operand, index: usize, c: nat, lits: Map<Seq<char>, Seq<char>>) -> Emitted {
    then(load(known, base, c, unlowered(), lits), |b: Seq<char>, c1: nat| {
        let u = unboxed(known, dst, ty, value_name(c1));
        Emitted {
            lines: seq![getter_line(value_name(c1), "skp_rt_struct_get"@, b, decimal(index as nat)), abort_line()] + u.lines,
            counter: c1 + 1,
            value: u.value,
        }
    })
}

/// Reads field `field` of the struct `base` into `dst` (see `struct_get`).
pub fn emit_struct_get(
    func: &IrFunction,
    names: &ValueNames,
    dst: TempId,
    ty: &IrType,
    base: &Operand,
    field: &FieldRef,
    lines: &mut Vec<String>,
    counter: &mut usize,
    string_literals: &StringLiterals,
) -> (r: Result<(), CodegenError>)
    requires
        struct_get(names@, dst, *ty, *base, field.index, *old(counter) as nat, string_literals@).counter <= usize::MAX,
    ensures
        emitted_unit(struct_get(names@, dst, *ty, *base, field.index, *old(counter) as nat, string_literals@),
            old(lines)@, final(lines)@, *final(counter), r),
{
    let ghost start = texts(lines@);
    let ghost e = struct_get(names@, dst, *ty, *base, field.index, *counter as nat, string_literals@);
    proof {
        lemma_load_counter(names@, *base, *counter as nat, unlowered(), string_literals@);
    }
    let base_ty = IrType::Named(String::new());
    let b = match operand_load(names, base, func, lines, counter, &base_ty, string_literals) {
        Ok(v) => v,
        Err(err) => {
            return Err(err);
        },
    };
    let raw = scratch_name(*counter);
    *counter += 1;
    push_line(lines, getter_line_text(raw.as_str(), "skp_rt_struct_get", b.as_str(), usize_text(field.index).as_str()));
    emit_abort_if_error(lines);
    let r = emit_unbox_value(names, dst, ty, raw.as_str(), lines);
    assert(texts(lines@) =~= start + e.lines);
    r
}

/// What `emit_struct_set` emits from counter `c`: the struct loaded (as a
/// Named type), the value boxed as `ty`, a call of `skp_rt_struct_set` for
/// field position `index`, the error check, and the release of the boxed value.
pub open spec fn struct_set(known: Set<usize>, ty: IrType, base: Operand, index: usize, value: Operand, c: nat, lits: Map<Seq<char>, Seq<char>>) -> Emitted {
    then(load(known, base, c, unlowered(), lits), |b: Seq<char>, c1: nat|
        then(boxed(known, value, ty, c1, lits), |v: Seq<char>, c2: nat|
            Emitted {
                lines: seq![setter_line("skp_rt_struct_set"@, b, decimal(index as nat), v), abort_line(), free_line(v)],
                counter: c2,
                value: Ok(seq![]),
            }))
}

/// Writes `value` into field `field` of the struct `base` (see `struct_set`).
pub fn emit_struct_set(
    func: &IrFunction,
    names: &ValueNames,
    ty: &IrType,
    base: &Operand,
    field: &FieldRef,
    value: &Operand,
    lines: &mut Vec<String>,
    counter: &mut usize,
    string_literals: &StringLiterals,
) -> (r: Result<(), CodegenError>)
    requires
        struct_set(names@, *ty, *base, field.index, *value, *old(counter) as nat, string_literals@).counter <= usize::MAX,
    ensures
        emitted_unit(struct_set(names@, *ty, *base, field.index, *value, *old(counter) as nat, string_literals@),
            old(lines)@, final(lines)@, *final(counter), r),
{
    let ghost start = texts(lines@);
    let ghost e = struct_set(names@, *ty, *base, field.index, *value, *counter as nat, string_literals@);
    let ghost lb = load(names@, *base, *counter as nat, unlowered(), string_literals@);
    proof {
        lemma_load_counter(names@, *base, *counter as nat, unlowered(), string_literals@);
        lemma_boxed_counter(names@, *value, *ty, lb.counter, string_literals@);
    }
    let base_ty = IrType::Named(String::new());
    let b = match operand_load(names, base, func, lines, counter, &base_ty, string_literals) {
        Ok(v) => v,
        Err(err) => {
            return Err(err);
        },
    };
    let v = match emit_boxed_operand(func, names, value, ty, lines, counter, string_literals) {
        Ok(v) => v,
        Err(err) => {
            assert(texts(lines@) =~= start + e.lines);
            return Err(err);
        },
    };
    push_line(lines, setter_line_text("skp_rt_struct_set", b.as_str(), usize_text(field.index).as_str(), v.as_str()));
    emit_abort_if_error(lines);
    emit_free_boxed_value(v.as_str(), lines);
    assert(texts(lines@) =~= start + e.lines);
    Ok(())
}

/// What storing `value`, boxed as `ty`, into slot `index` of `dest` with
/// `helper` emits from counter `c`: the boxing, the call, the error check and
/// the release of the boxed value.
#[verifier::opaque]
pub open spec fn slot_store(known: Set<usize>, helper: Seq<char>, dest: Seq<char>, index: nat, value: Operand, ty: IrType, c: nat, lits: Map<Seq<char>, Seq<char>>) -> Emitted {
    then(boxed(known, value, ty, c, lits), |b: Seq<char>, c1: nat|
        Emitted {
            lines: seq![setter_line(helper, dest, decimal(index), b), abort_line(), free_line(b)],
            counter: c1,
            value: Ok(seq![]),
        })
}

/// What storing each of `values` in turn into the slot of its position emits
/// (see `slot_store`), `ty_of(i)` being the type the `i`-th is boxed as; it
/// stops at the first failure.
pub open spec fn slot_stores(known: Set<usize>, helper: Seq<char>, dest: Seq<char>, values: Seq<Operand>, ty_of: spec_fn(int) -> IrType, c: nat, lits: Map<Seq<char>, Seq<char>>) -> Emitted
    decreases values.len(),
{
    if values.len() == 0 {
        Emitted { lines: seq![], counter: c, value: Ok(seq![]) }
    } else {
        let prev = slot_stores(known, helper, dest, values.drop_last(), ty_of, c, lits);
        match prev.value {
            Err(_) => prev,
            Ok(_) => {
                let i = values.len() - 1;
                let step = slot_store(known, helper, dest, i as nat, values.last(), ty_of(i), prev.counter, lits);
                Emitted { lines: prev.lines + step.lines, counter: step.counter, value: step.value }
            },
        }
    }
}

proof fn lemma_slot_store_counter(known: Set<usize>, helper: Seq<char>, dest: Seq<char>, index: nat, value: Operand, ty: IrType, c: nat, lits: Map<Seq<char>, Seq<char>>)
    ensures
        c <= slot_store(known, helper, dest, index, value, ty, c, lits).counter,
{
    reveal(slot_store);
    lemma_boxed_counter(known, value, ty, c, lits);
}

proof fn lemma_slot_stores_prefix(known: Set<usize>, helper: Seq<char>, dest: Seq<char>, values: Seq<Operand>, ty_of: spec_fn(int) -> IrType, c: nat, lits: Map<Seq<char>, Seq<char>>, n: int)
    requires
        0 <= n <= values.len(),
    ensures
        c <= slot_stores(known, helper, dest, values.take(n), ty_of, c, lits).counter,
        slot_stores(known, helper, dest, values.take(n), ty_of, c, lits).counter <= slot_stores(known, helper, dest, values, ty_of, c, lits).counter,
        slot_stores(known, helper, dest, values.take(n), ty_of, c, lits).value is Err ==>
            slot_stores(known, helper, dest, values, ty_of, c, lits) == slot_stores(known, helper, dest, values.take(n), ty_of, c, lits),
    decreases values.len() - n,
{
    if n < values.len() {
        lemma_slot_stores_prefix(known, helper, dest, values, ty_of, c, lits, n + 1);
        assert(values.take(n + 1).drop_last() =~= values.take(n));
        let prev = slot_stores(known, helper, dest, values.take(n), ty_of, c, lits);
        lemma_slot_store_counter(known, helper, dest, n as nat, values[n], ty_of(n), prev.counter, lits);
    } else {
        assert(values.take(n) =~= values);
    }
    lemma_slot_stores_grow(known, helper, dest, values.take(n), ty_of, c, lits);
}

proof fn lemma_slot_stores_grow(known: Set<usize>, helper: Seq<char>, dest: Seq<char>, values: Seq<Operand>, ty_of: spec_fn(int) -> IrType, c: nat, lits: Map<Seq<char>, Seq<char>>)
    ensures
        c <= slot_stores(known, helper, dest, values, ty_of, c, lits).counter,
    decreases values.len(),
{
    if values.len() > 0 {
        lemma_slot_stores_grow(known, helper, dest, values.drop_last(), ty_of, c, lits);
        lemma_slot_store_counter(known, helper, dest, (values.len() - 1) as nat, values.last(), ty_of(values.len() - 1),
            slot_stores(known, helper, dest, values.drop_last(), ty_of, c, lits).counter, lits);
    }
}

fn emit_slot_store(
    func: &IrFunction,
    names: &ValueNames,
    helper: &str,
    dest: &str,
    index: usize,
    value: &Operand,
    ty: &IrType,
    lines: &mut Vec<String>,
    counter: &mut usize,
    string_literals: &StringLiterals,
) -> (r: Result<(), CodegenError>)
    requires
        slot_store(names@, helper@, dest@, index as nat, *value, *ty, *old(counter) as nat, string_literals@).counter <= usize::MAX,
    ensures
        emitted_unit(slot_store(names@, helper@, dest@, index as nat, *value, *ty, *old(counter) as nat, string_literals@),
            old(lines)@, final(lines)@, *final(counter), r),
{
    reveal(slot_store);
    let ghost start = texts(lines@);
    let b = match emit_boxed_operand(func, names, value, ty, lines, counter, string_literals) {
        Ok(b) => b,
        Err(err) => {
            return Err(err);
        },
    };
    push_line(lines, setter_line_text(helper, dest, usize_text(index).as_str(), b.as_str()));
    emit_abort_if_error(lines);
    emit_free_boxed_value(b.as_str(), lines);
    assert(texts(lines@) =~= start + slot_store(names@, helper@, dest@, index as nat, *value, *ty, *old(counter) as nat, string_literals@).lines);
    Ok(())
}

/// What `emit_make_array` emits from counter `c`: nothing unless `dst` has a
/// register; then a call of `skp_rt_array_new` with the number of items into
/// it, and each item stored into its slot, boxed as `elem_ty`.
pub open spec fn make_array(known: Set<usize>, dst: TempId, elem_ty: IrType, items: Seq<Operand>, c: nat, lits: Map<Seq<char>, Seq<char>>) -> Emitted {
    match temp_lookup(known, dst.0) {
        Err(f) => just(c, Err(f)),
        Ok(d) => {
            let rest = slot_stores(known, "skp_rt_array_set"@, d, items, |i: int| elem_ty, c, lits);
            Emitted {
                lines: seq!["  "@ + d + " = call ptr @skp_rt_array_new(i64 "@ + decimal(items.len()) + ")"@] + rest.lines,
                counter: rest.counter,
                value: rest.value,
            }
        },
    }
}

/// Makes in `dst` an array of `items` (see `make_array`).
pub fn emit_make_array(
    func: &IrFunction,
    names: &ValueNames,
    dst: TempId,
    elem_ty: &IrType,
    items: &[Operand],
    lines: &mut Vec<String>,
    counter: &mut usize,
    string_literals: &StringLiterals,
) -> (r: Result<(), CodegenError>)
    requires
        make_array(names@, dst, *elem_ty, items@, *old(counter) as nat, string_literals@).counter <= usize::MAX,
    ensures
        emitted_unit(make_array(names@, dst, *elem_ty, items@, *old(counter) as nat, string_literals@),
            old(lines)@, final(lines)@, *final(counter), r),
{
    let ghost start = texts(lines@);
    let ghost c0 = *counter as nat;
    let ghost lits = string_literals@;
    let ghost tyf = |i: int| *elem_ty;
    let ghost e = make_array(names@, dst, *elem_ty, items@, c0, lits);
    let dest = match names.temp(dst) {
        Ok(d) => d,
        Err(err) => {
            assert(start + seq![] =~= start);
            return Err(err);
        },
    };
    let mut line = String::from_str("  ");
    line.append(dest);
    line.append(" = call ptr @skp_rt_array_new(i64 ");
    line.append(usize_text(items.len()).as_str());
    line.append(")");
    push_line(lines, line);
    let ghost head = texts(lines@);
    proof {
        lemma_slot_stores_prefix(names@, "skp_rt_array_set"@, dest@, items@, tyf, c0, lits, 0);
        assert(items@.take(0) =~= Seq::<Operand>::empty());
    }
    let mut i: usize = 0;
    while i < items.len()
        invariant
            i <= items@.len(),
            c0 == *old(counter) as nat,
            start == texts(old(lines)@),
            lits == string_literals@,
            tyf == (|k: int| *elem_ty),
            e == make_array(names@, dst, *elem_ty, items@, c0, lits),
            e.counter <= usize::MAX,
            temp_lookup(names@, dst.0) == Ok::<Seq<char>, Fault>(dest@),
            head == start.push("  "@ + dest@ + " = call ptr @skp_rt_array_new(i64 "@ + decimal(items@.len()) + ")"@),
            slot_stores(names@, "skp_rt_array_set"@, dest@, items@.take(i as int), tyf, c0, lits).value is Ok,
            texts(lines@) == head + slot_stores(names@, "skp_rt_array_set"@, dest@, items@.take(i as int), tyf, c0, lits).lines,
            *counter == slot_stores(names@, "skp_rt_array_set"@, dest@, items@.take(i as int), tyf, c0, lits).counter,
        decreases items@.len() - i,
    {
        let ghost prev = slot_stores(names@, "skp_rt_array_set"@, dest@, items@.take(i as int), tyf, c0, lits);
        let ghost next = slot_stores(names@, "skp_rt_array_set"@, dest@, items@.take(i + 1), tyf, c0, lits);
        proof {
            assert(items@.take(i + 1).drop_last() =~= items@.take(i as int));
            lemma_slot_stores_prefix(names@, "skp_rt_array_set"@, dest@, items@, tyf, c0, lits, i + 1);
        }
        let r = emit_slot_store(func, names, "skp_rt_array_set", dest, i, &items[i], elem_ty, lines, counter, string_literals);
        assert(texts(lines@) =~= head + next.lines);
        if let Err(err) = r {
            assert(texts(lines@) =~= start + e.lines);
            return Err(err);
        }
        i += 1;
    }
    assert(items@.take(i as int) =~= items@);
    assert(texts(lines@) =~= start + e.lines);
    Ok(())
}

/// The position of the first struct of `structs` with id `id`.
pub open spec fn find_struct(structs: Seq<IrStruct>, id: usize) -> Option<int>
    decreases structs.len(),
{
    if structs.len() == 0 {
        None
    } else {
        match find_struct(structs.drop_last(), id) {
            Some(i) => Some(i),
            None => if structs.last().id.0 == id { Some(structs.len() - 1) } else { None },
        }
    }
}

proof fn lemma_find_struct(structs: Seq<IrStruct>, id: usize, n: int)
    requires
        0 <= n <= structs.len(),
        find_struct(structs.take(n), id) is Some,
    ensures
        find_struct(structs, id) == find_struct(structs.take(n), id),
    decreases structs.len() - n,
{
    if n < structs.len() {
        assert(structs.take(n + 1).drop_last() =~= structs.take(n));
        lemma_find_struct(structs, id, n + 1);
    } else {
        assert(structs.take(n) =~= structs);
    }
}

proof fn lemma_find_struct_bounds(structs: Seq<IrStruct>, id: usize)
    ensures
        find_struct(structs, id) matches Some(i) ==> 0 <= i < structs.len() && structs[i].id.0 == id,
    decreases structs.len(),
{
    if structs.len() > 0 {
        lemma_find_struct_bounds(structs.drop_last(), id);
    }
}

/// The position of the first struct with id `id`.
fn position_of_struct(structs: &Vec<IrStruct>, id: StructId) -> (r: Option<usize>)
    ensures
        match r {
            Some(k) => find_struct(structs@, id.0) == Some(k as int),
            None => find_struct(structs@, id.0) is None,
        },
{
    let mut k: usize = 0;
    while k < structs.len()
        invariant
            k <= structs@.len(),
            find_struct(structs@.take(k as int), id.0) is None,
        decreases structs@.len() - k,
    {
        assert(structs@.take(k + 1).drop_last() =~= structs@.take(k as int));
        if structs[k].id == id {
            proof {
                lemma_find_struct(structs@, id.0, k + 1);
            }
            return Some(k);
        }
        k += 1;
    }
    assert(structs@.take(k as int) =~= structs@);
    None
}

/// The message of a struct id that names no struct.
pub open spec fn unknown_struct_message(id: usize) -> Seq<char> {
    "unknown struct StructId("@ + decimal(id as nat) + ")"@
}

/// What `emit_make_struct` emits from counter `c`: nothing unless the first
/// struct of `program` with id `struct_id` exists and `dst` has a register;
/// then a call of `skp_rt_struct_new` with the id and the number of field
/// values into it, and each field value stored into its slot, boxed as the
/// type of the struct's field at that position, for as many positions as
/// both the values and the struct's fields have.
pub open spec fn make_struct(known: Set<usize>, program: IrProgram, dst: TempId, struct_id: StructId, fields: Seq<Operand>, c: nat, lits: Map<Seq<char>, Seq<char>>) -> Emitted {
    match find_struct(program.structs@, struct_id.0) {
        None => just(c, Err(Fault::InvalidIr(unknown_struct_message(struct_id.0)))),
        Some(k) => match temp_lookup(known, dst.0) {
            Err(f) => just(c, Err(f)),
            Ok(d) => {
                let info = program.structs@[k].fields@;
                let n = if fields.len() < info.len() { fields.len() } else { info.len() };
                let rest = slot_stores(known, "skp_rt_struct_set"@, d, fields.take(n as int), |i: int| info[i].ty, c, lits);
                Emitted {
                    lines: seq!["  "@ + d + " = call ptr @skp_rt_struct_new(i64 "@ + decimal(struct_id.0 as nat) + ", i64 "@
                        + decimal(fields.len()) + ")"@] + rest.lines,
                    counter: rest.counter,
                    value: rest.value,
                }
            },
        },
    }
}

/// Makes in `dst` a struct of id `struct_id` from `fields` (see `make_struct`).
#[verifier::rlimit(30)]
pub fn emit_make_struct(
    program: &IrProgram,
    func: &IrFunction,
    names: &ValueNames,
    dst: TempId,
    struct_id: StructId,
    fields: &[Operand],
    lines: &mut Vec<String>,
    counter: &mut usize,
    string_literals: &StringLiterals,
) -> (r: Result<(), CodegenError>)
    requires
        make_struct(names@, *program, dst, struct_id, fields@, *old(counter) as nat, string_literals@).counter <= usize::MAX,
    ensures
        emitted_unit(make_struct(names@, *program, dst, struct_id, fields@, *old(counter) as nat, string_literals@),
            old(lines)@, final(lines)@, *final(counter), r),
{
    let ghost start = texts(lines@);
    let ghost c0 = *counter as nat;
    let ghost lits = string_literals@;
    let ghost e = make_struct(names@, *program, dst, struct_id, fields@, c0, lits);
    proof {
        lemma_find_struct_bounds(program.structs@, struct_id.0);
    }
    let k = match position_of_struct(&program.structs, struct_id) {
        Some(k) => k,
        None => {
            assert(start + seq![] =~= start);
            let mut msg = String::from_str("unknown struct StructId(");
            msg.append(usize_text(struct_id.0).as_str());
            msg.append(")");
            return Err(CodegenError::InvalidIr(msg));
        },
    };
    let info = &program.structs[k].fields;
    let dest = match names.temp(dst) {
        Ok(d) => d,
        Err(err) => {
            assert(start + seq![] =~= start);
            return Err(err);
        },
    };
    let mut line = String::from_str("  ");
    line.append(dest);
    line.append(" = call ptr @skp_rt_struct_new(i64 ");
    line.append(usize_text(struct_id.0).as_str());
    line.append(", i64 ");
    line.append(usize_text(fields.len()).as_str());
    line.append(")");
    push_line(lines, line);
    let ghost head = texts(lines@);
    let n: usize = if fields.len() < info.len() { fields.len() } else { info.len() };
    let ghost vals = fields@.take(n as int);
    let ghost tyf = |i: int| info@[i].ty;
    proof {
        lemma_slot_stores_prefix(names@, "skp_rt_struct_set"@, dest@, vals, tyf, c0, lits, 0);
        assert(vals.take(0) =~= Seq::<Operand>::empty());
    }
    let mut i: usize = 0;
    while i < n
        invariant
            i <= n,
            n <= fields@.len(),
            n <= info@.len(),
            vals == fields@.take(n as int),
            c0 == *old(counter) as nat,
            start == texts(old(lines)@),
            lits == string_literals@,
            tyf == (|k: int| info@[k].ty),
            e == make_struct(names@, *program, dst, struct_id, fields@, c0, lits),
            e.counter <= usize::MAX,
            e.lines == seq!["  "@ + dest@ + " = call ptr @skp_rt_struct_new(i64 "@ + decimal(struct_id.0 as nat) + ", i64 "@
                + decimal(fields@.len()) + ")"@] + slot_stores(names@, "skp_rt_struct_set"@, dest@, vals, tyf, c0, lits).lines,
            e.counter == slot_stores(names@, "skp_rt_struct_set"@, dest@, vals, tyf, c0, lits).counter,
            e.value == slot_stores(names@, "skp_rt_struct_set"@, dest@, vals, tyf, c0, lits).value,
            head == start.push("  "@ + dest@ + " = call ptr @skp_rt_struct_new(i64 "@ + decimal(struct_id.0 as nat) + ", i64 "@
                + decimal(fields@.len()) + ")"@),
            slot_stores(names@, "skp_rt_struct_set"@, dest@, vals.take(i as int), tyf, c0, lits).value is Ok,
            texts(lines@) == head + slot_stores(names@, "skp_rt_struct_set"@, dest@, vals.take(i as int), tyf, c0, lits).lines,
            *counter == slot_stores(names@, "skp_rt_struct_set"@, dest@, vals.take(i as int), tyf, c0, lits).counter,
        decreases n - i,
    {
        let ghost next = slot_stores(names@, "skp_rt_struct_set"@, dest@, vals.take(i + 1), tyf, c0, lits);
        proof {
            assert(vals.take(i + 1).drop_last() =~= vals.take(i as int));
            lemma_slot_stores_prefix(names@, "skp_rt_struct_set"@, dest@, vals, tyf, c0, lits, i + 1);
        }
        assert(vals.take(i + 1).last() == fields@[i as int]);
        let r = emit_slot_store(func, names, "skp_rt_struct_set", dest, i, &fields[i], &info[i].ty, lines, counter, string_literals);
        assert(texts(lines@) =~= head + next.lines);
        if let Err(err) = r {
            assert(texts(lines@) =~= start + e.lines);
            return Err(err);
        }
        i += 1;
    }
    assert(vals.take(i as int) =~= vals);
    assert(texts(lines@) =~= start + e.lines);
    Ok(())
}

/// What loading `args` in turn, each as the type at its position in `types`,
/// emits from counter `c`; the result is the list of typed arguments, each
/// its LLVM type, a space and its value, separated by `, `. It stops at the
/// first failure.
pub open spec fn typed_args(known: Set<usize>, args: Seq<Operand>, types: Seq<IrType>, c: nat, lits: Map<Seq<char>, Seq<char>>) -> Emitted
    decreases args.len(),
{
    if args.len() == 0 {
        Emitted { lines: seq![], counter: c, value: Ok(seq![]) }
    } else {
        let prev = typed_args(known, args.drop_last(), types, c, lits);
        match prev.value {
            Err(_) => prev,
            Ok(joined) => {
                let i = args.len() - 1;
                let l = load(known, args.last(), prev.counter, llvm_type(types[i]), lits);
                match l.value {
                    Err(f) => Emitted { lines: prev.lines + l.lines, counter: l.counter, value: Err(f) },
                    Ok(v) => match llvm_type(types[i]) {
                        Err(f) => Emitted { lines: prev.lines + l.lines, counter: l.counter, value: Err(f) },
                        Ok(t) => Emitted {
                            lines: prev.lines + l.lines,
                            counter: l.counter,
                            value: Ok(if i == 0 { t + " "@ + v } else { joined + ", "@ + t + " "@ + v }),
                        },
                    },
                }
            },
        }
    }
}

pub proof fn lemma_typed_args_grow(known: Set<usize>, args: Seq<Operand>, types: Seq<IrType>, c: nat, lits: Map<Seq<char>, Seq<char>>)
    ensures
        c <= typed_args(known, args, types, c, lits).counter,
    decreases args.len(),
{
    if args.len() > 0 {
        lemma_typed_args_grow(known, args.drop_last(), types, c, lits);
        lemma_load_counter(known, args.last(), typed_args(known, args.drop_last(), types, c, lits).counter,
            llvm_type(types[args.len() - 1]), lits);
    }
}

pub proof fn lemma_typed_args_prefix(known: Set<usize>, args: Seq<Operand>, types: Seq<IrType>, c: nat, lits: Map<Seq<char>, Seq<char>>, n: int)
    requires
        0 <= n <= args.len(),
    ensures
        typed_args(known, args.take(n), types, c, lits).counter <= typed_args(known, args, types, c, lits).counter,
        typed_args(known, args.take(n), types, c, lits).value is Err ==>
            typed_args(known, args, types, c, lits) == typed_args(known, args.take(n), types, c, lits),
    decreases args.len() - n,
{
    if n < args.len() {
        lemma_typed_args_prefix(known, args, types, c, lits, n + 1);
        assert(args.take(n + 1).drop_last() =~= args.take(n));
        lemma_load_counter(known, args[n], typed_args(known, args.take(n), types, c, lits).counter, llvm_type(types[n]), lits);
    } else {
        assert(args.take(n) =~= args);
    }
}

/// Loading as the same types emits the same.
pub proof fn lemma_typed_args_same_types(known: Set<usize>, args: Seq<Operand>, t1: Seq<IrType>, t2: Seq<IrType>, c: nat, lits: Map<Seq<char>, Seq<char>>)
    requires
        args.len() <= t1.len(),
        t1.len() == t2.len(),
        forall|i: int| 0 <= i < t1.len() ==> same_type(#[trigger] t1[i], t2[i]),
    ensures
        typed_args(known, args, t1, c, lits) == typed_args(known, args, t2, c, lits),
    decreases args.len(),
{
    if args.len() > 0 {
        lemma_typed_args_same_types(known, args.drop_last(), t1, t2, c, lits);
        crate::codegen::llvm::runtime_boxing::lemma_same_type_lowering(t1[args.len() - 1], t2[args.len() - 1]);
    }
}

/// Loads `args`, each as the type at its position in `types` (see `typed_args`).
pub fn emit_typed_args(
    func: &IrFunction,
    names: &ValueNames,
    args: &[Operand],
    types: &Vec<IrType>,
    lines: &mut Vec<String>,
    counter: &mut usize,
    string_literals: &StringLiterals,
) -> (r: Result<String, CodegenError>)
    requires
        args@.len() == types@.len(),
        typed_args(names@, args@, types@, *old(counter) as nat, string_literals@).counter <= usize::MAX,
    ensures
        appended(old(lines)@, final(lines)@, typed_args(names@, args@, types@, *old(counter) as nat, string_literals@).lines),
        *final(counter) == typed_args(names@, args@, types@, *old(counter) as nat, string_literals@).counter,
        crate::codegen::llvm::runtime_boxing::same_result(typed_args(names@, args@, types@, *old(counter) as nat, string_literals@).value, r),
{
    let ghost start = texts(lines@);
    let ghost c0 = *counter as nat;
    let ghost lits = string_literals@;
    let ghost e = typed_args(names@, args@, types@, c0, lits);
    proof {
        lemma_typed_args_prefix(names@, args@, types@, c0, lits, 0);
        assert(args@.take(0) =~= Seq::<Operand>::empty());
    }
    let mut joined = String::new();
    let mut i: usize = 0;
    while i < args.len()
        invariant
            i <= args@.len(),
            args@.len() == types@.len(),
            c0 == *old(counter) as nat,
            start == texts(old(lines)@),
            lits == string_literals@,
            e == typed_args(names@, args@, types@, c0, lits),
            e.counter <= usize::MAX,
            typed_args(names@, args@.take(i as int), types@, c0, lits).value == Ok::<Seq<char>, Fault>(joined@),
            texts(lines@) == start + typed_args(names@, args@.take(i as int), types@, c0, lits).lines,
            *counter == typed_args(names@, args@.take(i as int), types@, c0, lits).counter,
        decreases args@.len() - i,
    {
        let ghost prev = typed_args(names@, args@.take(i as int), types@, c0, lits);
        let ghost next = typed_args(names@, args@.take(i + 1), types@, c0, lits);
        proof {
            assert(args@.take(i + 1).drop_last() =~= args@.take(i as int));
            assert(args@.take(i + 1).last() == args@[i as int]);
            lemma_typed_args_prefix(names@, args@, types@, c0, lits, i + 1);
            lemma_load_counter(names@, args@[i as int], prev.counter, llvm_type(types@[i as int]), lits);
        }
        let value = match operand_load(names, &args[i], func, lines, counter, &types[i], string_literals) {
            Ok(v) => v,
            Err(err) => {
                assert(texts(lines@) =~= start + e.lines);
                return Err(err);
            },
        };
        let t = match crate::codegen::llvm::types::llvm_ty(&types[i]) {
            Ok(t) => t,
            Err(err) => {
                assert(texts(lines@) =~= start + e.lines);
                return Err(err);
            },
        };
        if i == 0 {
            joined = String::from_str(t);
        } else {
            joined.append(", ");
            joined.append(t);
        }
        joined.append(" ");
        joined.append(value.as_str());
        assert(texts(lines@) =~= start + next.lines);
        i += 1;
    }
    assert(args@.take(i as int) =~= args@);
    Ok(joined)
}

/// What a raw pointer to the bytes of the literal `s` emits from counter `c`:
/// the address of the first byte of its storage, in the next scratch register.
pub open spec fn raw_string(s: Seq<char>, c: nat, lits: Map<Seq<char>, Seq<char>>) -> Emitted {
    if lits.contains_key(s) {
        Emitted {
            lines: seq![literal_address_line(value_name(c), utf8(s).len() + 1, lits[s])],
            counter: c + 1,
            value: Ok(value_name(c)),
        }
    } else {
        just(c, Err(Fault::InvalidIr(missing_literal_message())))
    }
}

/// A raw pointer to the bytes of the literal `value` (see `raw_string`).
fn raw_string_ptr(value: &str, lines: &mut Vec<String>, counter: &mut usize, string_literals: &StringLiterals) -> (r: Result<String, CodegenError>)
    requires
        raw_string(value@, *old(counter) as nat, string_literals@).counter <= usize::MAX,
    ensures
        appended(old(lines)@, final(lines)@, raw_string(value@, *old(counter) as nat, string_literals@).lines),
        *final(counter) == raw_string(value@, *old(counter) as nat, string_literals@).counter,
        crate::codegen::llvm::runtime_boxing::same_result(raw_string(value@, *old(counter) as nat, string_literals@).value, r),
{
    let ghost start = texts(lines@);
    let name = match string_literals.get(value) {
        Some(n) => n,
        None => {
            assert(start + seq![] =~= start);
            return Err(CodegenError::InvalidIr(String::from_str("missing string literal declaration")));
        },
    };
    let gep = scratch_name(*counter);
    *counter += 1;
    let len = value.as_bytes().len();
    let mut line = String::from_str("  ");
    line.append(gep.as_str());
    line.append(" = getelementptr inbounds [");
    line.append(u128_text(len as u128 + 1).as_str());
    line.append(" x i8], ptr ");
    line.append(name);
    line.append(", i64 0, i64 0");
    push_line(lines, line);
    assert(texts(lines@) =~= start + raw_string(value@, *old(counter) as nat, string_literals@).lines);
    Ok(gep)
}

/// A builtin call as it stands in an instruction.
pub struct BuiltinCallInstr<'a> {
    pub dst: Option<TempId>,
    pub ret_ty: &'a IrType,
    pub builtin: &'a BuiltinCall,
    pub args: &'a [Operand],
}

/// The runtime helper of a string builtin and the types of its arguments:
/// `str.len`, `str.contains`, `str.indexOf` and `str.slice` have their own.
pub open spec fn string_builtin(package: Seq<char>, name: Seq<char>) -> Option<(Seq<char>, Seq<IrType>)> {
    if package == "str"@ {
        if name == "len"@ {
            Some(("skp_rt_builtin_str_len"@, seq![IrType::String]))
        } else if name == "contains"@ {
            Some(("skp_rt_builtin_str_contains"@, seq![IrType::String, IrType::String]))
        } else if name == "indexOf"@ {
            Some(("skp_rt_builtin_str_index_of"@, seq![IrType::String, IrType::String]))
        } else if name == "slice"@ {
            Some(("skp_rt_builtin_str_slice"@, seq![IrType::String, IrType::Int, IrType::Int]))
        } else {
            None
        }
    } else {
        None
    }
}

/// The message of a non-void call without a destination.
pub open spec fn no_destination_message(kind: Seq<char>) -> Seq<char> {
    "non-void "@ + kind + " call must write to a destination temp"@
}

/// What calling `helper` with the typed argument list `joined` emits when
/// the call returns `ret_ty`: a plain call when it returns nothing, else a
/// call into the register of `dst`, each followed by the error check.
pub open spec fn direct_string_call(known: Set<usize>, dst: Option<TempId>, ret_ty: IrType, helper: Seq<char>, joined: Seq<char>, c: nat) -> Emitted {
    match llvm_type(ret_ty) {
        Err(f) => just(c, Err(f)),
        Ok(rt) => if ret_ty is Void {
            Emitted { lines: seq!["  call "@ + rt + " @"@ + helper + "("@ + joined + ")"@, abort_line()], counter: c, value: Ok(seq![]) }
        } else {
            match dst {
                None => just(c, Err(Fault::InvalidIr(no_destination_message("builtin"@)))),
                Some(d) => match temp_lookup(known, d.0) {
                    Err(f) => just(c, Err(f)),
                    Ok(dn) => Emitted {
                        lines: seq!["  "@ + dn + " = call "@ + rt + " @"@ + helper + "("@ + joined + ")"@, abort_line()],
                        counter: c,
                        value: Ok(seq![]),
                    },
                },
            }
        },
    }
}

/// What a call of a builtin emits through the generic runtime entry
/// `skp_rt_call_builtin`, from counter `c`: raw pointers to the package and
/// name literals, the boxed argument array, the call into the next scratch
/// register, the error check, the release of the boxed arguments; then the
/// release of the result when the call returns nothing, else the result
/// unboxed into `dst` and released.
pub open spec fn generic_builtin_call(known: Set<usize>, func: IrFunction, dst: Option<TempId>, ret_ty: IrType, builtin: BuiltinCall,
    args: Seq<Operand>, c: nat, lits: Map<Seq<char>, Seq<char>>) -> Emitted
{
    then(raw_string(builtin.package@, c, lits), |p: Seq<char>, c1: nat|
        then(raw_string(builtin.name@, c1, lits), |n: Seq<char>, c2: nat| {
            let a = arg_array(known, func, args, c2, lits);
            match a.fault {
                Some(f) => Emitted { lines: a.lines, counter: a.counter, value: Err(f) },
                None => {
                    let raw = value_name(a.counter);
                    let call = seq!["  "@ + raw + " = call ptr @skp_rt_call_builtin(ptr "@ + p + ", ptr "@ + n + ", i64 "@
                        + decimal(args.len()) + ", ptr "@ + value_name(c2) + ")"@, abort_line()] + free_lines(a.values);
                    finish_boxed_call(known, dst, ret_ty, raw, a.lines + call, a.counter + 1, "builtin"@)
                },
            }
        }))
}

/// The end of a call through the runtime whose boxed result is in `raw`, after
/// `lines`: the release of the result when the call returns nothing, else the
/// result unboxed into `dst` and then released; a non-void call with no
/// destination fails.
pub open spec fn finish_boxed_call(known: Set<usize>, dst: Option<TempId>, ret_ty: IrType, raw: Seq<char>, lines: Seq<Seq<char>>, c: nat, kind: Seq<char>) -> Emitted {
    if ret_ty is Void {
        Emitted { lines: lines.push(free_line(raw)), counter: c, value: Ok(seq![]) }
    } else {
        match dst {
            None => Emitted { lines, counter: c, value: Err(Fault::InvalidIr(no_destination_message(kind))) },
            Some(d) => {
                let u = unboxed(known, d, ret_ty, raw);
                match u.value {
                    Err(f) => Emitted { lines: lines + u.lines, counter: c, value: Err(f) },
                    Ok(_) => Emitted { lines: (lines + u.lines).push(free_line(raw)), counter: c, value: Ok(seq![]) },
                }
            },
        }
    }
}

/// What `emit_builtin_call` emits from counter `c`: for a string builtin
/// (see `string_builtin`), an arity check against its argument types, the
/// typed arguments, and the direct call of its helper; for any other builtin,
/// the generic call through the runtime.
pub open spec fn builtin_call(known: Set<usize>, func: IrFunction, dst: Option<TempId>, ret_ty: IrType, builtin: BuiltinCall,
    args: Seq<Operand>, c: nat, lits: Map<Seq<char>, Seq<char>>) -> Emitted
{
    match string_builtin(builtin.package@, builtin.name@) {
        None => generic_builtin_call(known, func, dst, ret_ty, builtin, args, c, lits),
        Some((helper, types)) => if args.len() != types.len() {
            just(c, Err(Fault::InvalidIr("builtin arity mismatch for "@ + builtin.package@ + "."@ + builtin.name@)))
        } else {
            then(typed_args(known, args, types, c, lits), |joined: Seq<char>, c1: nat|
                direct_string_call(known, dst, ret_ty, helper, joined, c1))
        },
    }
}

fn string_builtin_helper(package: &str, name: &str) -> (r: Option<(&'static str, Vec<IrType>)>)
    ensures
        match string_builtin(package@, name@) {
            None => r is None,
            Some((h, types)) => r matches Some((rh, rt)) && rh@ == h && rt@ == types,
        },
{
    if !text_eq(package, "str") {
        return None;
    }
    if text_eq(name, "len") {
        Some(("skp_rt_builtin_str_len", vec![IrType::String]))
    } else if text_eq(name, "contains") {
        Some(("skp_rt_builtin_str_contains", vec![IrType::String, IrType::String]))
    } else if text_eq(name, "indexOf") {
        Some(("skp_rt_builtin_str_index_of", vec![IrType::String, IrType::String]))
    } else if text_eq(name, "slice") {
        Some(("skp_rt_builtin_str_slice", vec![IrType::String, IrType::Int, IrType::Int]))
    } else {
        None
    }
}

/// Ends a call through the runtime whose boxed result is in `raw` (see `finish_boxed_call`).
fn emit_finish_boxed_call(
    names: &ValueNames,
    dst: Option<TempId>,
    ret_ty: &IrType,
    raw: &str,
    kind: &str,
    lines: &mut Vec<String>,
) -> (r: Result<(), CodegenError>)
    ensures
        texts(final(lines)@) == finish_boxed_call(names@, dst, *ret_ty, raw@, texts(old(lines)@), 0, kind@).lines,
        same_outcome(finish_boxed_call(names@, dst, *ret_ty, raw@, texts(old(lines)@), 0, kind@).value, r),
{
    let ghost start = texts(lines@);
    if ret_ty.is_void() {
        emit_free_boxed_value(raw, lines);
        return Ok(());
    }
    let d = match dst {
        Some(d) => d,
        None => {
            let mut msg = String::from_str("non-void ");
            msg.append(kind);
            msg.append(" call must write to a destination temp");
            return Err(CodegenError::InvalidIr(msg));
        },
    };
    if let Err(err) = emit_unbox_value(names, d, ret_ty, raw, lines) {
        return Err(err);
    }
    emit_free_boxed_value(raw, lines);
    Ok(())
}

proof fn lemma_finish_shift(known: Set<usize>, dst: Option<TempId>, ret_ty: IrType, raw: Seq<char>, pre: Seq<Seq<char>>, lines: Seq<Seq<char>>, c: nat, kind: Seq<char>)
    ensures
        finish_boxed_call(known, dst, ret_ty, raw, pre + lines, c, kind).lines == pre + finish_boxed_call(known, dst, ret_ty, raw, lines, c, kind).lines,
        finish_boxed_call(known, dst, ret_ty, raw, pre + lines, c, kind).value == finish_boxed_call(known, dst, ret_ty, raw, lines, 0, kind).value,
        finish_boxed_call(known, dst, ret_ty, raw, lines, c, kind).counter == c,
{
    let u = match dst { Some(d) => unboxed(known, d, ret_ty, raw), None => unboxed(known, TempId(0), ret_ty, raw) };
    assert((pre + lines).push(free_line(raw)) =~= pre + lines.push(free_line(raw)));
    assert((pre + lines) + u.lines =~= pre + (lines + u.lines));
    assert(((pre + lines) + u.lines).push(free_line(raw)) =~= pre + (lines + u.lines).push(free_line(raw)));
}

#[verifier::rlimit(40)]
fn emit_builtin_call_generic(
    func: &IrFunction,
    names: &ValueNames,
    call: BuiltinCallInstr<'_>,
    lines: &mut Vec<String>,
    counter: &mut usize,
    string_literals: &StringLiterals,
) -> (r: Result<(), CodegenError>)
    requires
        generic_builtin_call(names@, *func, call.dst, *call.ret_ty, *call.builtin, call.args@, *old(counter) as nat, string_literals@).counter <= usize::MAX,
    ensures
        emitted_unit(generic_builtin_call(names@, *func, call.dst, *call.ret_ty, *call.builtin, call.args@, *old(counter) as nat, string_literals@),
            old(lines)@, final(lines)@, *final(counter), r),
{
    let ghost start = texts(lines@);
    let ghost c0 = *counter as nat;
    let ghost lits = string_literals@;
    let ghost e = generic_builtin_call(names@, *func, call.dst, *call.ret_ty, *call.builtin, call.args@, c0, lits);
    let ghost rp = raw_string(call.builtin.package@, c0, lits);
    let ghost rn = raw_string(call.builtin.name@, rp.counter, lits);
    let ghost a = arg_array(names@, *func, call.args@, rn.counter, lits);
    proof {
        crate::codegen::llvm::runtime_boxing::lemma_arg_array_counter(names@, *func, call.args@, rn.counter, lits);
        lemma_finish_shift(names@, call.dst, *call.ret_ty, value_name(a.counter), seq![], seq![], a.counter + 1, "builtin"@);
        let call_lines = seq!["  "@ + value_name(a.counter) + " = call ptr @skp_rt_call_builtin(ptr "@ + rp.value->Ok_0 + ", ptr "@ + rn.value->Ok_0 + ", i64 "@
            + decimal(call.args@.len()) + ", ptr "@ + value_name(rn.counter) + ")"@, abort_line()] + free_lines(a.values);
        lemma_finish_shift(names@, call.dst, *call.ret_ty, value_name(a.counter), seq![], a.lines + call_lines, a.counter + 1, "builtin"@);
    }
    let package_ptr = match raw_string_ptr(call.builtin.package.as_str(), lines, counter, string_literals) {
        Ok(p) => p,
        Err(err) => {
            return Err(err);
        },
    };
    let name_ptr = match raw_string_ptr(call.builtin.name.as_str(), lines, counter, string_literals) {
        Ok(p) => p,
        Err(err) => {
            assert(texts(lines@) =~= start + e.lines);
            return Err(err);
        },
    };
    let ghost before_args = texts(lines@);
    let boxed_args = match emit_boxed_arg_array(func, names, call.args, lines, counter, string_literals) {
        Ok(b) => b,
        Err(err) => {
            assert(texts(lines@) =~= start + e.lines);
            return Err(err);
        },
    };
    let raw = scratch_name(*counter);
    *counter += 1;
    let mut line = String::from_str("  ");
    line.append(raw.as_str());
    line.append(" = call ptr @skp_rt_call_builtin(ptr ");
    line.append(package_ptr.as_str());
    line.append(", ptr ");
    line.append(name_ptr.as_str());
    line.append(", i64 ");
    line.append(usize_text(call.args.len()).as_str());
    line.append(", ptr ");
    line.append(boxed_args.array.as_str());
    line.append(")");
    push_line(lines, line);
    emit_abort_if_error(lines);
    emit_free_boxed_values(boxed_args.values.as_slice(), lines);
    let ghost call_lines = seq!["  "@ + raw@ + " = call ptr @skp_rt_call_builtin(ptr "@ + package_ptr@ + ", ptr "@ + name_ptr@ + ", i64 "@
        + decimal(call.args@.len()) + ", ptr "@ + value_name(rn.counter) + ")"@, abort_line()] + free_lines(a.values);
    assert(texts(lines@) =~= (start + (rp.lines + rn.lines)) + (a.lines + call_lines));
    let ghost pre = start + (rp.lines + rn.lines);
    let r = emit_finish_boxed_call(names, call.dst, call.ret_ty, raw.as_str(), "builtin", lines);
    proof {
        lemma_finish_shift(names@, call.dst, *call.ret_ty, raw@, pre, a.lines + call_lines, a.counter + 1, "builtin"@);
        lemma_finish_shift(names@, call.dst, *call.ret_ty, raw@, pre, a.lines + call_lines, 0, "builtin"@);
        assert(pre + (a.lines + call_lines) == texts(old(lines)@) + (rp.lines + rn.lines) + (a.lines + call_lines));
    }
    assert(texts(lines@) =~= start + e.lines);
    r
}

/// Calls a builtin (see `builtin_call`).
#[verifier::rlimit(30)]
pub fn emit_builtin_call(
    func: &IrFunction,
    names: &ValueNames,
    call: BuiltinCallInstr<'_>,
    lines: &mut Vec<String>,
    counter: &mut usize,
    string_literals: &StringLiterals,
) -> (r: Result<(), CodegenError>)
    requires
        builtin_call(names@, *func, call.dst, *call.ret_ty, *call.builtin, call.args@, *old(counter) as nat, string_literals@).counter <= usize::MAX,
    ensures
        emitted_unit(builtin_call(names@, *func, call.dst, *call.ret_ty, *call.builtin, call.args@, *old(counter) as nat, string_literals@),
            old(lines)@, final(lines)@, *final(counter), r),
{
    let ghost start = texts(lines@);
    let ghost c0 = *counter as nat;
    let ghost lits = string_literals@;
    let ghost e = builtin_call(names@, *func, call.dst, *call.ret_ty, *call.builtin, call.args@, c0, lits);
    let (helper, expected) = match string_builtin_helper(call.builtin.package.as_str(), call.builtin.name.as_str()) {
        Some(found) => found,
        None => {
            return emit_builtin_call_generic(func, names, call, lines, counter, string_literals);
        },
    };
    if call.args.len() != expected.len() {
        assert(start + seq![] =~= start);
        let mut msg = String::from_str("builtin arity mismatch for ");
        msg.append(call.builtin.package.as_str());
        msg.append(".");
        msg.append(call.builtin.name.as_str());
        return Err(CodegenError::InvalidIr(msg));
    }
    proof {
        lemma_typed_args_grow(names@, call.args@, expected@, c0, lits);
    }
    let joined = match emit_typed_args(func, names, call.args, &expected, lines, counter, string_literals) {
        Ok(j) => j,
        Err(err) => {
            return Err(err);
        },
    };
    let ghost mid = texts(lines@);
    let ret_llvm_ty = match crate::codegen::llvm::types::llvm_ty(call.ret_ty) {
        Ok(t) => t,
        Err(err) => {
            assert(texts(lines@) =~= start + e.lines);
            return Err(err);
        },
    };
    if call.ret_ty.is_void() {
        let mut line = String::from_str("  call ");
        line.append(ret_llvm_ty);
        line.append(" @");
        line.append(helper);
        line.append("(");
        line.append(joined.as_str());
        line.append(")");
        push_line(lines, line);
        emit_abort_if_error(lines);
        assert(texts(lines@) =~= start + e.lines);
        return Ok(());
    }
    let d = match call.dst {
        Some(d) => d,
        None => {
            assert(texts(lines@) =~= start + e.lines);
            let mut msg = String::from_str("non-void ");
            msg.append("builtin");
            msg.append(" call must write to a destination temp");
            return Err(CodegenError::InvalidIr(msg));
        },
    };
    let dest = match names.temp(d) {
        Ok(n) => n,
        Err(err) => {
            assert(texts(lines@) =~= start + e.lines);
            return Err(err);
        },
    };
    let mut line = String::from_str("  ");
    line.append(dest);
    line.append(" = call ");
    line.append(ret_llvm_ty);
    line.append(" @");
    line.append(helper);
    line.append("(");
    line.append(joined.as_str());
    line.append(")");
    push_line(lines, line);
    emit_abort_if_error(lines);
    assert(texts(lines@) =~= start + e.lines);
    Ok(())
}

/// The message of a signature the indirect-call trampoline cannot handle.
pub open spec fn trampoline_message() -> Seq<char> {
    "indirect-call trampoline only supports Int/Float/Bool/String/Named/Array/Vec/Fn/Void signatures"@
}

/// The lines that fetch and unbox argument `index` of a trampoline, as a
/// value of type `ty`, and check the runtime's error flag.
pub open spec fn param_unbox_lines(index: nat, ty: IrType) -> Result<Seq<Seq<char>>, Fault> {
    match unbox_call(ty) {
        None => Err(Fault::Unsupported(trampoline_message())),
        Some(call) => Ok(seq![
            "  %argslot"@ + decimal(index) + " = getelementptr inbounds ptr, ptr %argv, i64 "@ + decimal(index),
            "  %argraw"@ + decimal(index) + " = load ptr, ptr %argslot"@ + decimal(index) + ", align 8"@,
            "  %arg"@ + decimal(index) + call + "%argraw"@ + decimal(index) + ")"@,
            "  call void @skp_rt_abort_if_error()"@,
        ]),
    }
}

/// The lines that fetch and unbox the first `params.len()` arguments of a trampoline.
pub open spec fn params_unbox_lines(params: Seq<IrParam>) -> Result<Seq<Seq<char>>, Fault>
    decreases params.len(),
{
    if params.len() == 0 {
        Ok(seq![])
    } else {
        match params_unbox_lines(params.drop_last()) {
            Err(f) => Err(f),
            Ok(prev) => match param_unbox_lines((params.len() - 1) as nat, params.last().ty) {
                Err(f) => Err(f),
                Ok(more) => Ok(prev + more),
            },
        }
    }
}

/// The typed argument list with which a trampoline calls its function: each
/// parameter's LLVM type and `%arg` with its position, separated by `, `.
pub open spec fn params_call_args(params: Seq<IrParam>) -> Result<Seq<char>, Fault>
    decreases params.len(),
{
    if params.len() == 0 {
        Ok(seq![])
    } else {
        match params_call_args(params.drop_last()) {
            Err(f) => Err(f),
            Ok(prev) => match llvm_type(params.last().ty) {
                Err(f) => Err(f),
                Ok(t) => {
                    let arg = t + " %arg"@ + decimal((params.len() - 1) as nat);
                    Ok(if params.len() == 1 { arg } else { prev + ", "@ + arg })
                },
            },
        }
    }
}

/// The trampoline of `func`: a function `@__skp_rt_fnwrap_` with its id that
/// takes an argument count and an array of boxed arguments, falls back to
/// `skp_rt_call_function` when the count is not the number of parameters,
/// unboxes each argument, calls the function, and returns its result boxed
/// (or a boxed unit when it returns nothing).
pub open spec fn trampoline(func: IrFunction) -> Result<Seq<Seq<char>>, Fault> {
    let id = decimal(func.id.0 as nat);
    let head = seq![
        "define internal ptr @__skp_rt_fnwrap_"@ + id + "(i64 %argc, ptr %argv) {"@,
        "entry:"@,
        "  "@ + ("%argc_ok_"@ + id) + " = icmp eq i64 %argc, "@ + decimal(func.params@.len()),
        "  br i1 "@ + ("%argc_ok_"@ + id) + ", label %argc_ok, label %argc_bad"@,
        "argc_bad:"@,
        "  %argc_err = call ptr @skp_rt_call_function(i32 "@ + id + ", i64 %argc, ptr %argv)"@,
        "  ret ptr %argc_err"@,
        "argc_ok:"@,
    ];
    match params_unbox_lines(func.params@) {
        Err(f) => Err(f),
        Ok(unboxing) => match params_call_args(func.params@) {
            Err(f) => Err(f),
            Ok(args) => if func.ret_ty is Void {
                Ok(head + unboxing + seq![
                    "  call void "@ + symbol_text(func.name@) + "("@ + args + ")"@,
                    "  %unit = call ptr @skp_rt_value_from_unit()"@,
                    "  ret ptr %unit"@,
                    "}"@,
                ])
            } else {
                match llvm_type(func.ret_ty) {
                    Err(f) => Err(f),
                    Ok(rt) => match box_helper(func.ret_ty) {
                        None => Err(Fault::Unsupported(trampoline_message())),
                        Some(boxer) => Ok(head + unboxing + seq![
                            "  %ret = call "@ + rt + " "@ + symbol_text(func.name@) + "("@ + args + ")"@,
                            "  %boxed = call ptr @"@ + boxer + "("@ + rt + " %ret)"@,
                            "  ret ptr %boxed"@,
                            "}"@,
                        ]),
                    },
                }
            },
        },
    }
}

/// The trampolines of `funcs` in turn, each followed by an empty line; the
/// first failure stops them.
pub open spec fn trampolines(funcs: Seq<IrFunction>) -> (Seq<Seq<char>>, Option<Fault>)
    decreases funcs.len(),
{
    if funcs.len() == 0 {
        (seq![], None)
    } else {
        let prev = trampolines(funcs.drop_last());
        match prev.1 {
            Some(f) => prev,
            None => match trampoline(funcs.last()) {
                Err(f) => (prev.0, Some(f)),
                Ok(t) => (prev.0 + t + seq![seq![]], None),
            },
        }
    }
}

/// The `switch` cases of the dispatcher, one line each, joined by newlines.
pub open spec fn switch_cases(funcs: Seq<IrFunction>) -> Seq<char>
    decreases funcs.len(),
{
    if funcs.len() == 0 {
        seq![]
    } else {
        let id = decimal(funcs.last().id.0 as nat);
        let case = "    i32 "@ + id + ", label %case"@ + id;
        if funcs.len() == 1 { case } else { switch_cases(funcs.drop_last()) + "\n"@ + case }
    }
}

/// The blocks of the dispatcher that call each function's trampoline.
pub open spec fn dispatch_cases(funcs: Seq<IrFunction>) -> Seq<Seq<char>>
    decreases funcs.len(),
{
    if funcs.len() == 0 {
        seq![]
    } else {
        let id = decimal(funcs.last().id.0 as nat);
        dispatch_cases(funcs.drop_last()) + seq![
            "case"@ + id + ":"@,
            "  %call"@ + id + " = call ptr @__skp_rt_fnwrap_"@ + id + "(i64 %argc, ptr %argv)"@,
            "  ret ptr %call"@ + id,
        ]
    }
}

/// The dispatcher `@__skp_rt_call_function_dispatch`: from a function id, the
/// call of that function's trampoline; a boxed unit for any other id.
pub open spec fn dispatcher(funcs: Seq<IrFunction>) -> Seq<Seq<char>> {
    let head = seq!["define internal ptr @__skp_rt_call_function_dispatch(i32 %function, i64 %argc, ptr %argv) {"@, "entry:"@];
    let unit = seq!["  %unit = call ptr @skp_rt_value_from_unit()"@, "  ret ptr %unit"@, "}"@];
    if funcs.len() == 0 {
        head + unit
    } else {
        head + seq!["  switch i32 %function, label %default [\n"@ + switch_cases(funcs) + "\n  ]"@] + dispatch_cases(funcs)
            + seq!["default:"@] + unit
    }
}

/// What `emit_runtime_decls` appends: each runtime declaration, then the
/// trampolines, then (if every trampoline could be written) the dispatcher.
pub open spec fn runtime_decls(program: IrProgram) -> (Seq<Seq<char>>, Option<Fault>) {
    let decls = crate::codegen::llvm::runtime_decls::runtime_decl_table().map_values(|p: (Seq<char>, Seq<char>)| p.1);
    let t = trampolines(program.functions@);
    match t.1 {
        Some(f) => (decls + t.0, Some(f)),
        None => (decls + t.0 + dispatcher(program.functions@), None),
    }
}

/// Appends `more` to `lines`.
pub fn extend_lines(lines: &mut Vec<String>, more: &Vec<String>)
    ensures
        texts(final(lines)@) == texts(old(lines)@) + texts(more@),
{
    let ghost start = texts(lines@);
    let mut i: usize = 0;
    while i < more.len()
        invariant
            i <= more@.len(),
            texts(lines@) == start + texts(more@.take(i as int)),
        decreases more@.len() - i,
    {
        push_line(lines, more[i].clone());
        assert(texts(more@.take(i + 1)) =~= texts(more@.take(i as int)).push(more@[i as int]@));
        assert(texts(lines@) =~= start + texts(more@.take(i + 1)));
        i += 1;
    }
    assert(more@.take(i as int) =~= more@);
}

fn text2(a: &str, b: &str) -> (r: String)
    ensures
        r@ == a@ + b@,
{
    let mut s = String::from_str(a);
    s.append(b);
    s
}

fn text3(a: &str, b: &str, c: &str) -> (r: String)
    ensures
        r@ == a@ + b@ + c@,
{
    let mut s = String::from_str(a);
    s.append(b);
    s.append(c);
    s
}

fn text4(a: &str, b: &str, c: &str, d: &str) -> (r: String)
    ensures
        r@ == a@ + b@ + c@ + d@,
{
    let mut s = String::from_str(a);
    s.append(b);
    s.append(c);
    s.append(d);
    s
}

fn text5(a: &str, b: &str, c: &str, d: &str, e: &str) -> (r: String)
    ensures
        r@ == a@ + b@ + c@ + d@ + e@,
{
    let mut s = String::from_str(a);
    s.append(b);
    s.append(c);
    s.append(d);
    s.append(e);
    s
}

/// Writes the trampoline of `func` (see `trampoline`).
#[verifier::rlimit(30)]
fn emit_indirect_wrapper(func: &IrFunction) -> (r: Result<Vec<String>, CodegenError>)
    ensures
        match trampoline(*func) {
            Ok(t) => r matches Ok(v) && texts(v@) == t,
            Err(f) => r matches Err(e) && e@ == f,
        },
{
    let id = usize_text(func.id.0);
    let argc_ok = text2("%argc_ok_", id.as_str());
    let mut lines: Vec<String> = Vec::new();
    push_line(&mut lines, text3("define internal ptr @__skp_rt_fnwrap_", id.as_str(), "(i64 %argc, ptr %argv) {"));
    push_line(&mut lines, String::from_str("entry:"));
    push_line(&mut lines, text4("  ", argc_ok.as_str(), " = icmp eq i64 %argc, ", usize_text(func.params.len()).as_str()));
    push_line(&mut lines, text3("  br i1 ", argc_ok.as_str(), ", label %argc_ok, label %argc_bad"));
    push_line(&mut lines, String::from_str("argc_bad:"));
    push_line(&mut lines, text3("  %argc_err = call ptr @skp_rt_call_function(i32 ", id.as_str(), ", i64 %argc, ptr %argv)"));
    push_line(&mut lines, String::from_str("  ret ptr %argc_err"));
    push_line(&mut lines, String::from_str("argc_ok:"));
    let ghost id_text = decimal(func.id.0 as nat);
    let ghost head = seq![
        "define internal ptr @__skp_rt_fnwrap_"@ + id_text + "(i64 %argc, ptr %argv) {"@,
        "entry:"@,
        "  "@ + ("%argc_ok_"@ + id_text) + " = icmp eq i64 %argc, "@ + decimal(func.params@.len()),
        "  br i1 "@ + ("%argc_ok_"@ + id_text) + ", label %argc_ok, label %argc_bad"@,
        "argc_bad:"@,
        "  %argc_err = call ptr @skp_rt_call_function(i32 "@ + id_text + ", i64 %argc, ptr %argv)"@,
        "  ret ptr %argc_err"@,
        "argc_ok:"@,
    ];
    assert(texts(lines@) =~= head);
    let mut i: usize = 0;
    while i < func.params.len()
        invariant
            i <= func.params@.len(),
            params_unbox_lines(func.params@.take(i as int)) is Ok,
            texts(lines@) == head + params_unbox_lines(func.params@.take(i as int))->Ok_0,
        decreases func.params@.len() - i,
    {
        assert(func.params@.take(i + 1).drop_last() =~= func.params@.take(i as int));
        let idx = usize_text(i);
        let call = match unbox_call_text(&func.params[i].ty) {
            Some(c) => c,
            None => {
                proof {
                    lemma_params_unbox_prefix(func.params@, i + 1);
                }
                return Err(CodegenError::Unsupported("indirect-call trampoline only supports Int/Float/Bool/String/Named/Array/Vec/Fn/Void signatures"));
            },
        };
        let ghost before = texts(lines@);
        push_line(&mut lines, text4("  %argslot", idx.as_str(), " = getelementptr inbounds ptr, ptr %argv, i64 ", idx.as_str()));
        push_line(&mut lines, text5("  %argraw", idx.as_str(), " = load ptr, ptr %argslot", idx.as_str(), ", align 8"));
        let mut unbox = text3("  %arg", idx.as_str(), call);
        unbox.append("%argraw");
        unbox.append(idx.as_str());
        unbox.append(")");
        push_line(&mut lines, unbox);
        push_line(&mut lines, String::from_str("  call void @skp_rt_abort_if_error()"));
        assert(texts(lines@) =~= head + params_unbox_lines(func.params@.take(i + 1))->Ok_0);
        i += 1;
    }
    assert(func.params@.take(i as int) =~= func.params@);
    let mut joined = String::new();
    let mut j: usize = 0;
    while j < func.params.len()
        invariant
            j <= func.params@.len(),
            params_unbox_lines(func.params@) is Ok,
            params_call_args(func.params@.take(j as int)) == Ok::<Seq<char>, Fault>(joined@),
        decreases func.params@.len() - j,
    {
        assert(func.params@.take(j + 1).drop_last() =~= func.params@.take(j as int));
        let t = match crate::codegen::llvm::types::llvm_ty(&func.params[j].ty) {
            Ok(t) => t,
            Err(err) => {
                proof {
                    lemma_params_call_args_prefix(func.params@, j + 1);
                }
                return Err(err);
            },
        };
        let arg = text3(t, " %arg", usize_text(j).as_str());
        if j == 0 {
            joined = arg;
        } else {
            joined.append(", ");
            joined.append(arg.as_str());
        }
        j += 1;
    }
    assert(func.params@.take(j as int) =~= func.params@);
    let symbol = llvm_symbol(func.name.as_str());
    let ghost body = texts(lines@);
    if func.ret_ty.is_void() {
        push_line(&mut lines, text5("  call void ", symbol.as_str(), "(", joined.as_str(), ")"));
        push_line(&mut lines, String::from_str("  %unit = call ptr @skp_rt_value_from_unit()"));
        push_line(&mut lines, String::from_str("  ret ptr %unit"));
        push_line(&mut lines, String::from_str("}"));
        assert(texts(lines@) =~= trampoline(*func)->Ok_0);
        return Ok(lines);
    }
    let rt = match crate::codegen::llvm::types::llvm_ty(&func.ret_ty) {
        Ok(t) => t,
        Err(err) => {
            return Err(err);
        },
    };
    let boxer = match box_helper_text(&func.ret_ty) {
        Some(b) => b,
        None => {
            return Err(CodegenError::Unsupported("indirect-call trampoline only supports Int/Float/Bool/String/Named/Array/Vec/Fn/Void signatures"));
        },
    };
    let mut call_line = text4("  %ret = call ", rt, " ", symbol.as_str());
    call_line.append("(");
    call_line.append(joined.as_str());
    call_line.append(")");
    push_line(&mut lines, call_line);
    push_line(&mut lines, text5("  %boxed = call ptr @", boxer, "(", rt, " %ret)"));
    push_line(&mut lines, String::from_str("  ret ptr %boxed"));
    push_line(&mut lines, String::from_str("}"));
    assert(texts(lines@) =~= trampoline(*func)->Ok_0);
    Ok(lines)
}

proof fn lemma_params_unbox_prefix(params: Seq<IrParam>, n: int)
    requires
        0 <= n <= params.len(),
        params_unbox_lines(params.take(n)) is Err,
    ensures
        params_unbox_lines(params) == params_unbox_lines(params.take(n)),
    decreases params.len() - n,
{
    if n < params.len() {
        assert(params.take(n + 1).drop_last() =~= params.take(n));
        lemma_params_unbox_prefix(params, n + 1);
    } else {
        assert(params.take(n) =~= params);
    }
}

proof fn lemma_params_call_args_prefix(params: Seq<IrParam>, n: int)
    requires
        0 <= n <= params.len(),
        params_call_args(params.take(n)) is Err,
    ensures
        params_call_args(params) == params_call_args(params.take(n)),
    decreases params.len() - n,
{
    if n < params.len() {
        assert(params.take(n + 1).drop_last() =~= params.take(n));
        lemma_params_call_args_prefix(params, n + 1);
    } else {
        assert(params.take(n) =~= params);
    }
}

proof fn lemma_trampolines_prefix(funcs: Seq<IrFunction>, n: int)
    requires
        0 <= n <= funcs.len(),
        trampolines(funcs.take(n)).1 is Some,
    ensures
        trampolines(funcs) == trampolines(funcs.take(n)),
    decreases funcs.len() - n,
{
    if n < funcs.len() {
        assert(funcs.take(n + 1).drop_last() =~= funcs.take(n));
        lemma_trampolines_prefix(funcs, n + 1);
    } else {
        assert(funcs.take(n) =~= funcs);
    }
}

/// Appends the trampolines of the program's functions and then the
/// dispatcher that indirect calls go through (see `trampolines`, `dispatcher`).
fn emit_indirect_call_dispatch(program: &IrProgram, out: &mut Vec<String>) -> (r: Result<(), CodegenError>)
    ensures
        match trampolines(program.functions@).1 {
            Some(f) => texts(final(out)@) == texts(old(out)@) + trampolines(program.functions@).0 && (r matches Err(e) && e@ == f),
            None => texts(final(out)@) == texts(old(out)@) + trampolines(program.functions@).0 + dispatcher(program.functions@) && r is Ok,
        },
{
    let ghost start = texts(out@);
    let funcs = &program.functions;
    let mut i: usize = 0;
    while i < funcs.len()
        invariant
            i <= funcs@.len(),
            start == texts(old(out)@),
            funcs == &program.functions,
            trampolines(funcs@.take(i as int)).1 is None,
            texts(out@) == start + trampolines(funcs@.take(i as int)).0,
        decreases funcs@.len() - i,
    {
        assert(funcs@.take(i + 1).drop_last() =~= funcs@.take(i as int));
        assert(funcs@.take(i + 1).last() == funcs@[i as int]);
        match emit_indirect_wrapper(&funcs[i]) {
            Ok(w) => {
                extend_lines(out, &w);
                push_line(out, String::new());
                assert(texts(out@) =~= start + trampolines(funcs@.take(i + 1)).0);
            },
            Err(e) => {
                proof {
                    lemma_trampolines_prefix(funcs@, i + 1);
                }
                return Err(e);
            },
        }
        i += 1;
    }
    assert(funcs@.take(i as int) =~= funcs@);
    let ghost mid = texts(out@);
    push_line(out, String::from_str("define internal ptr @__skp_rt_call_function_dispatch(i32 %function, i64 %argc, ptr %argv) {"));
    push_line(out, String::from_str("entry:"));
    if funcs.len() == 0 {
        push_line(out, String::from_str("  %unit = call ptr @skp_rt_value_from_unit()"));
        push_line(out, String::from_str("  ret ptr %unit"));
        push_line(out, String::from_str("}"));
        assert(texts(out@) =~= mid + dispatcher(funcs@));
        return Ok(());
    }
    let mut cases = String::new();
    let mut k: usize = 0;
    while k < funcs.len()
        invariant
            k <= funcs@.len(),
            cases@ == switch_cases(funcs@.take(k as int)),
        decreases funcs@.len() - k,
    {
        assert(funcs@.take(k + 1).drop_last() =~= funcs@.take(k as int));
        let id = usize_text(funcs[k].id.0);
        let case = text4("    i32 ", id.as_str(), ", label %case", id.as_str());
        if k == 0 {
            cases = case;
        } else {
            cases.append("\n");
            cases.append(case.as_str());
        }
        k += 1;
    }
    assert(funcs@.take(k as int) =~= funcs@);
    push_line(out, text3("  switch i32 %function, label %default [\n", cases.as_str(), "\n  ]"));
    let ghost before_cases = texts(out@);
    let mut m: usize = 0;
    while m < funcs.len()
        invariant
            m <= funcs@.len(),
            texts(out@) == before_cases + dispatch_cases(funcs@.take(m as int)),
        decreases funcs@.len() - m,
    {
        assert(funcs@.take(m + 1).drop_last() =~= funcs@.take(m as int));
        let id = usize_text(funcs[m].id.0);
        push_line(out, text3("case", id.as_str(), ":"));
        push_line(out, text5("  %call", id.as_str(), " = call ptr @__skp_rt_fnwrap_", id.as_str(), "(i64 %argc, ptr %argv)"));
        push_line(out, text2("  ret ptr %call", id.as_str()));
        assert(texts(out@) =~= before_cases + dispatch_cases(funcs@.take(m + 1)));
        m += 1;
    }
    assert(funcs@.take(m as int) =~= funcs@);
    push_line(out, String::from_str("default:"));
    push_line(out, String::from_str("  %unit = call ptr @skp_rt_value_from_unit()"));
    push_line(out, String::from_str("  ret ptr %unit"));
    push_line(out, String::from_str("}"));
    assert(texts(out@) =~= mid + dispatcher(funcs@));
    Ok(())
}

/// Appends the declarations of the runtime's entry points and the indirect
/// call machinery (see `runtime_decls`).
pub fn emit_runtime_decls(program: &IrProgram, out: &mut Vec<String>) -> (r: Result<(), CodegenError>)
    ensures
        texts(final(out)@) == texts(old(out)@) + runtime_decls(*program).0,
        match runtime_decls(*program).1 {
            Some(f) => r matches Err(e) && e@ == f,
            None => r is Ok,
        },
{
    let ghost start = texts(out@);
    let decls = crate::codegen::llvm::runtime_decls::runtime_declarations();
    let ghost table = crate::codegen::llvm::runtime_decls::runtime_decl_table().map_values(|p: (Seq<char>, Seq<char>)| p.1);
    let mut i: usize = 0;
    while i < decls.len()
        invariant
            i <= decls@.len(),
            crate::codegen::llvm::runtime_decls::decl_views(decls@) == crate::codegen::llvm::runtime_decls::runtime_decl_table(),
            table == crate::codegen::llvm::runtime_decls::runtime_decl_table().map_values(|p: (Seq<char>, Seq<char>)| p.1),
            texts(out@) == start + table.take(i as int),
        decreases decls@.len() - i,
    {
        let (_, decl) = decls[i];
        assert(decl@ == table[i as int]);
        push_line(out, decl.to_string());
        assert(texts(out@) =~= start + table.take(i + 1));
        i += 1;
    }
    assert(table.take(i as int) =~= table);
    emit_indirect_call_dispatch(program, out)
}

/// What `emit_indirect_call` emits from counter `c`: nothing unless the
/// callee's inferred type is a function type that returns the same type as
/// the call and takes as many parameters as there are arguments; then the
/// callee loaded as its type, the boxed argument array, a call of the
/// dispatcher with the callee, the argument count and the array into the next
/// scratch register, the error check, the release of the boxed arguments,
/// and the end of the call (see `finish_boxed_call`).
pub open spec fn indirect_call(known: Set<usize>, func: IrFunction, dst: Option<TempId>, ret_ty: IrType, callee: Operand,
    args: Seq<Operand>, c: nat, lits: Map<Seq<char>, Seq<char>>) -> Emitted
{
    let callee_ty = inferred_type(func, callee);
    match callee_ty {
        IrType::Fn { params, ret } => if !same_type(*ret, ret_ty) {
            just(c, Err(Fault::InvalidIr("indirect call return type mismatch: callee returns "@ + type_debug(*ret)
                + ", call expects "@ + type_debug(ret_ty))))
        } else if params@.len() != args.len() {
            just(c, Err(Fault::InvalidIr("indirect call arity mismatch: callee expects "@ + decimal(params@.len())
                + ", got "@ + decimal(args.len()))))
        } else {
            then(load(known, callee, c, llvm_type(callee_ty), lits), |cv: Seq<char>, c1: nat| {
                let a = arg_array(known, func, args, c1, lits);
                match a.fault {
                    Some(f) => Emitted { lines: a.lines, counter: a.counter, value: Err(f) },
                    None => {
                        let raw = value_name(a.counter);
                        let call = seq!["  "@ + raw + " = call ptr @__skp_rt_call_function_dispatch(i32 "@ + cv + ", i64 "@
                            + decimal(args.len()) + ", ptr "@ + value_name(c1) + ")"@, abort_line()] + free_lines(a.values);
                        finish_boxed_call(known, dst, ret_ty, raw, a.lines + call, a.counter + 1, "indirect"@)
                    },
                }
            })
        },
        other => just(c, Err(Fault::InvalidIr("indirect callee must have function type, got "@ + type_debug(other)))),
    }
}

/// Calls the function value `callee` (see `indirect_call`).
#[verifier::rlimit(40)]
pub fn emit_indirect_call(
    func: &IrFunction,
    names: &ValueNames,
    dst: Option<TempId>,
    ret_ty: &IrType,
    callee: &Operand,
    args: &[Operand],
    lines: &mut Vec<String>,
    counter: &mut usize,
    string_literals: &StringLiterals,
) -> (r: Result<(), CodegenError>)
    requires
        indirect_call(names@, *func, dst, *ret_ty, *callee, args@, *old(counter) as nat, string_literals@).counter <= usize::MAX,
    ensures
        emitted_unit(indirect_call(names@, *func, dst, *ret_ty, *callee, args@, *old(counter) as nat, string_literals@),
            old(lines)@, final(lines)@, *final(counter), r),
{
    let ghost start = texts(lines@);
    let ghost c0 = *counter as nat;
    let ghost lits = string_literals@;
    let ghost e = indirect_call(names@, *func, dst, *ret_ty, *callee, args@, c0, lits);
    let ghost spec_ty = inferred_type(*func, *callee);
    let callee_ty = infer_operand_type(func, callee);
    proof {
        crate::codegen::llvm::runtime_boxing::lemma_same_type_lowering(callee_ty, spec_ty);
        crate::codegen::llvm::type_text::lemma_same_type_debug(callee_ty, spec_ty);
    }
    let (param_count, callee_ret) = match &callee_ty {
        IrType::Fn { params, ret } => (params.len(), ret),
        other => {
            assert(start + seq![] =~= start);
            let mut msg = String::from_str("indirect callee must have function type, got ");
            msg.append(type_debug_text(other).as_str());
            return Err(CodegenError::InvalidIr(msg));
        },
    };
    let ghost spec_ret = match spec_ty { IrType::Fn { ret, .. } => *ret, _ => IrType::Unknown };
    proof {
        crate::codegen::llvm::type_text::lemma_same_type_debug(**callee_ret, spec_ret);
        lemma_same_type_symmetric(**callee_ret, spec_ret);
        lemma_same_type_transitive_with(**callee_ret, spec_ret, *ret_ty);
    }
    if !types_equal(callee_ret, ret_ty) {
        assert(start + seq![] =~= start);
        let mut msg = String::from_str("indirect call return type mismatch: callee returns ");
        msg.append(type_debug_text(callee_ret).as_str());
        msg.append(", call expects ");
        msg.append(type_debug_text(ret_ty).as_str());
        return Err(CodegenError::InvalidIr(msg));
    }
    if param_count != args.len() {
        assert(start + seq![] =~= start);
        let mut msg = String::from_str("indirect call arity mismatch: callee expects ");
        msg.append(usize_text(param_count).as_str());
        msg.append(", got ");
        msg.append(usize_text(args.len()).as_str());
        return Err(CodegenError::InvalidIr(msg));
    }
    let ghost lc = load(names@, *callee, c0, llvm_type(spec_ty), lits);
    let ghost a = arg_array(names@, *func, args@, lc.counter, lits);
    proof {
        lemma_load_counter(names@, *callee, c0, llvm_type(spec_ty), lits);
        crate::codegen::llvm::runtime_boxing::lemma_arg_array_counter(names@, *func, args@, lc.counter, lits);
        lemma_finish_shift(names@, dst, *ret_ty, value_name(a.counter), seq![], seq![], a.counter + 1, "indirect"@);
        let call_lines = seq!["  "@ + value_name(a.counter) + " = call ptr @__skp_rt_call_function_dispatch(i32 "@ + lc.value->Ok_0 + ", i64 "@
            + decimal(args@.len()) + ", ptr "@ + value_name(lc.counter) + ")"@, abort_line()] + free_lines(a.values);
        lemma_finish_shift(names@, dst, *ret_ty, value_name(a.counter), seq![], a.lines + call_lines, a.counter + 1, "indirect"@);
    }
    let callee_value = match operand_load(names, callee, func, lines, counter, &callee_ty, string_literals) {
        Ok(v) => v,
        Err(err) => {
            return Err(err);
        },
    };
    let boxed_args = match emit_boxed_arg_array(func, names, args, lines, counter, string_literals) {
        Ok(b) => b,
        Err(err) => {
            assert(texts(lines@) =~= start + e.lines);
            return Err(err);
        },
    };
    let raw = scratch_name(*counter);
    *counter += 1;
    let mut line = String::from_str("  ");
    line.append(raw.as_str());
    line.append(" = call ptr @__skp_rt_call_function_dispatch(i32 ");
    line.append(callee_value.as_str());
    line.append(", i64 ");
    line.append(usize_text(args.len()).as_str());
    line.append(", ptr ");
    line.append(boxed_args.array.as_str());
    line.append(")");
    push_line(lines, line);
    emit_abort_if_error(lines);
    emit_free_boxed_values(boxed_args.values.as_slice(), lines);
    let ghost call_lines = seq!["  "@ + raw@ + " = call ptr @__skp_rt_call_function_dispatch(i32 "@ + callee_value@ + ", i64 "@
        + decimal(args@.len()) + ", ptr "@ + value_name(lc.counter) + ")"@, abort_line()] + free_lines(a.values);
    assert(texts(lines@) =~= (start + lc.lines) + (a.lines + call_lines));
    let ghost pre = start + lc.lines;
    let r = emit_finish_boxed_call(names, dst, ret_ty, raw.as_str(), "indirect", lines);
    proof {
        lemma_finish_shift(names@, dst, *ret_ty, raw@, pre, a.lines + call_lines, a.counter + 1, "indirect"@);
        lemma_finish_shift(names@, dst, *ret_ty, raw@, pre, a.lines + call_lines, 0, "indirect"@);
    }
    assert(texts(lines@) =~= start + e.lines);
    r
}

proof fn lemma_same_type_symmetric(a: IrType, b: IrType)
    requires
        same_type(a, b),
    ensures
        same_type(b, a),
    decreases a,
{
    match (a, b) {
        (IrType::Array { elem: e1, .. }, IrType::Array { elem: e2, .. }) => lemma_same_type_symmetric(*e1, *e2),
        (IrType::Vec { elem: e1 }, IrType::Vec { elem: e2 }) => lemma_same_type_symmetric(*e1, *e2),
        (IrType::Fn { params: p1, ret: r1 }, IrType::Fn { params: p2, ret: r2 }) => {
            assert forall|i: int| 0 <= i < p2@.len() implies same_type(#[trigger] p2@[i], p1@[i]) by {
                assert(decreases_to!(p1 => p1@));
                lemma_same_type_symmetric(p1@[i], p2@[i]);
            }
            lemma_same_type_symmetric(*r1, *r2);
        },
        _ => {},
    }
}

proof fn lemma_same_type_transitive_with(a: IrType, b: IrType, c: IrType)
    requires
        same_type(a, b),
    ensures
        same_type(a, c) == same_type(b, c),
    decreases a,
{
    match (a, b, c) {
        (IrType::Array { elem: e1, .. }, IrType::Array { elem: e2, .. }, IrType::Array { elem: e3, .. }) =>
            lemma_same_type_transitive_with(*e1, *e2, *e3),
        (IrType::Vec { elem: e1 }, IrType::Vec { elem: e2 }, IrType::Vec { elem: e3 }) =>
            lemma_same_type_transitive_with(*e1, *e2, *e3),
        (IrType::Fn { params: p1, ret: r1 }, IrType::Fn { params: p2, ret: r2 }, IrType::Fn { params: p3, ret: r3 }) => {
            assert forall|i: int| 0 <= i < p1@.len() && i < p3@.len() implies
                same_type(#[trigger] p1@[i], p3@[i]) == same_type(p2@[i], p3@[i]) by {
                assert(decreases_to!(p1 => p1@));
                lemma_same_type_transitive_with(p1@[i], p2@[i], p3@[i]);
            }
            lemma_same_type_transitive_with(*r1, *r2, *r3);
            if same_type(a, c) {
                assert forall|i: int| 0 <= i < p2@.len() implies same_type(#[trigger] p2@[i], p3@[i]) by {
                    assert(same_type(p1@[i], p3@[i]));
                }
            }
            if same_type(b, c) {
                assert forall|i: int| 0 <= i < p1@.len() implies same_type(#[trigger] p1@[i], p3@[i]) by {
                    assert(same_type(p2@[i], p3@[i]));
                }
            }
        },
        _ => {},
    }
}

} // verus!
