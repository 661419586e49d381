//! Boxing values into the runtime's value handles and back.

use vstd::prelude::*;
use vstd::string::StringExecFns;

use crate::codegen::{texts, CodegenError, Fault};
use crate::codegen::llvm::strings::StringLiterals;
use crate::codegen::llvm::types::{llvm_ty, llvm_type};
use crate::codegen::llvm::value::{
    just, load, operand_load, push_line, scratch_name, temp_lookup, then, value_name, Emitted,
    ValueNames,
};
use crate::ir::{copy_type, same_type, ConstValue, IrFunction, IrLocal, IrTemp, IrType, LocalId, Operand, TempId};
use crate::text::{decimal, usize_text};

verus! {

broadcast use vstd::std_specs::vec::group_vec_axioms;

/// `after` is `before` with the lines `new` appended.
pub open spec fn appended(before: Seq<String>, after: Seq<String>, new: Seq<Seq<char>>) -> bool {
    texts(after) == texts(before) + new
}

/// `r` is the outcome `v`: success with the text `v` holds, or the failure it holds.
pub open spec fn same_result(v: Result<Seq<char>, Fault>, r: Result<String, CodegenError>) -> bool {
    match v {
        Ok(t) => r matches Ok(s) && s@ == t,
        Err(f) => r matches Err(e) && e@ == f,
    }
}

/// `r` succeeds exactly where `v` does, and fails with the failure `v` holds.
pub open spec fn same_outcome(v: Result<Seq<char>, Fault>, r: Result<(), CodegenError>) -> bool {
    match v {
        Ok(_) => r is Ok,
        Err(f) => r matches Err(e) && e@ == f,
    }
}

/// The type of the first temp of `temps` with id `id`.
pub open spec fn temp_type(temps: Seq<IrTemp>, id: usize) -> Option<IrType>
    decreases temps.len(),
{
    if temps.len() == 0 {
        None
    } else {
        match temp_type(temps.drop_last(), id) {
            Some(t) => Some(t),
            None => if temps.last().id.0 == id { Some(temps.last().ty) } else { None },
        }
    }
}

/// The type of the first local of `locals` with id `id`.
pub open spec fn local_type(locals: Seq<IrLocal>, id: usize) -> Option<IrType>
    decreases locals.len(),
{
    if locals.len() == 0 {
        None
    } else {
        match local_type(locals.drop_last(), id) {
            Some(t) => Some(t),
            None => if locals.last().id.0 == id { Some(locals.last().ty) } else { None },
        }
    }
}

proof fn lemma_temp_type_prefix(temps: Seq<IrTemp>, id: usize, n: int)
    requires
        0 <= n <= temps.len(),
        temp_type(temps.take(n), id) is Some,
    ensures
        temp_type(temps, id) == temp_type(temps.take(n), id),
    decreases temps.len() - n,
{
    if n < temps.len() {
        assert(temps.take(n + 1).drop_last() =~= temps.take(n));
        lemma_temp_type_prefix(temps, id, n + 1);
    } else {
        assert(temps.take(n) =~= temps);
    }
}

proof fn lemma_local_type_prefix(locals: Seq<IrLocal>, id: usize, n: int)
    requires
        0 <= n <= locals.len(),
        local_type(locals.take(n), id) is Some,
    ensures
        local_type(locals, id) == local_type(locals.take(n), id),
    decreases locals.len() - n,
{
    if n < locals.len() {
        assert(locals.take(n + 1).drop_last() =~= locals.take(n));
        lemma_local_type_prefix(locals, id, n + 1);
    } else {
        assert(locals.take(n) =~= locals);
    }
}

/// The type the runtime calls give an operand: a constant's type (Void for
/// unit), the declared type of the first temp or local with its id, and
/// Unknown for an undeclared temp or local and for a global.
pub open spec fn inferred_type(func: IrFunction, op: Operand) -> IrType {
    match op {
        Operand::Const(ConstValue::Int(_)) => IrType::Int,
        Operand::Const(ConstValue::Float(_)) => IrType::Float,
        Operand::Const(ConstValue::Bool(_)) => IrType::Bool,
        Operand::Const(ConstValue::String(_)) => IrType::String,
        Operand::Const(ConstValue::Unit) => IrType::Void,
        Operand::Temp(id) => match temp_type(func.temps@, id.0) {
            Some(t) => t,
            None => IrType::Unknown,
        },
        Operand::Local(id) => match local_type(func.locals@, id.0) {
            Some(t) => t,
            None => IrType::Unknown,
        },
        Operand::Global(_) => IrType::Unknown,
    }
}

/// The declared type of the first temp of `temps` with id `id` (see `temp_type`).
pub fn declared_temp_type(temps: &Vec<IrTemp>, id: TempId) -> (r: Option<IrType>)
    ensures
        match temp_type(temps@, id.0) {
            Some(t) => r matches Some(x) && same_type(x, t),
            None => r is None,
        },
{
    let mut i: usize = 0;
    while i < temps.len()
        invariant
            i <= temps@.len(),
            temp_type(temps@.take(i as int), id.0) is None,
        decreases temps@.len() - i,
    {
        assert(temps@.take(i + 1).drop_last() =~= temps@.take(i as int));
        if temps[i].id == id {
            proof {
                lemma_temp_type_prefix(temps@, id.0, i + 1);
            }
            return Some(copy_type(&temps[i].ty));
        }
        i += 1;
    }
    assert(temps@.take(i as int) =~= temps@);
    None
}

/// The declared type of the first local of `locals` with id `id` (see `local_type`).
pub fn declared_local_type(locals: &Vec<IrLocal>, id: LocalId) -> (r: Option<IrType>)
    ensures
        match local_type(locals@, id.0) {
            Some(t) => r matches Some(x) && same_type(x, t),
            None => r is None,
        },
{
    let mut i: usize = 0;
    while i < locals.len()
        invariant
            i <= locals@.len(),
            local_type(locals@.take(i as int), id.0) is None,
        decreases locals@.len() - i,
    {
        assert(locals@.take(i + 1).drop_last() =~= locals@.take(i as int));
        if locals[i].id == id {
            proof {
                lemma_local_type_prefix(locals@, id.0, i + 1);
            }
            return Some(copy_type(&locals[i].ty));
        }
        i += 1;
    }
    assert(locals@.take(i as int) =~= locals@);
    None
}

/// The type of `operand` (see `inferred_type`).
pub fn infer_operand_type(func: &IrFunction, operand: &Operand) -> (r: IrType)
    ensures
        same_type(r, inferred_type(*func, *operand)),
{
    match operand {
        Operand::Const(ConstValue::Int(_)) => IrType::Int,
        Operand::Const(ConstValue::Float(_)) => IrType::Float,
        Operand::Const(ConstValue::Bool(_)) => IrType::Bool,
        Operand::Const(ConstValue::String(_)) => IrType::String,
        Operand::Const(ConstValue::Unit) => IrType::Void,
        Operand::Temp(id) => match declared_temp_type(&func.temps, *id) {
            Some(t) => t,
            None => IrType::Unknown,
        },
        Operand::Local(id) => match declared_local_type(&func.locals, *id) {
            Some(t) => t,
            None => IrType::Unknown,
        },
        Operand::Global(_) => IrType::Unknown,
    }
}

/// The runtime function that boxes a value of type `ty`, if there is one.
pub open spec fn box_helper(ty: IrType) -> Option<Seq<char>> {
    match ty {
        IrType::Int => Some("skp_rt_value_from_int"@),
        IrType::Float => Some("skp_rt_value_from_float"@),
        IrType::Bool => Some("skp_rt_value_from_bool"@),
        IrType::String => Some("skp_rt_value_from_string"@),
        IrType::Array { .. } => Some("skp_rt_value_from_array"@),
        IrType::Vec { .. } => Some("skp_rt_value_from_vec"@),
        IrType::Named(_) => Some("skp_rt_value_from_struct"@),
        IrType::Fn { .. } => Some("skp_rt_value_from_function"@),
        _ => None,
    }
}

/// The call that unboxes a value of type `ty`, up to its argument, if there is one.
pub open spec fn unbox_call(ty: IrType) -> Option<Seq<char>> {
    match ty {
        IrType::Int => Some(" = call i64 @skp_rt_value_to_int(ptr "@),
        IrType::Float => Some(" = call double @skp_rt_value_to_float(ptr "@),
        IrType::Bool => Some(" = call i1 @skp_rt_value_to_bool(ptr "@),
        IrType::String => Some(" = call ptr @skp_rt_value_to_string(ptr "@),
        IrType::Array { .. } => Some(" = call ptr @skp_rt_value_to_array(ptr "@),
        IrType::Vec { .. } => Some(" = call ptr @skp_rt_value_to_vec(ptr "@),
        IrType::Named(_) => Some(" = call ptr @skp_rt_value_to_struct(ptr "@),
        IrType::Fn { .. } => Some(" = call i32 @skp_rt_value_to_function(ptr "@),
        _ => None,
    }
}

/// Types that are the same type are lowered, boxed and unboxed alike.
pub proof fn lemma_same_type_lowering(a: IrType, b: IrType)
    requires
        same_type(a, b),
    ensures
        llvm_type(a) == llvm_type(b),
        box_helper(a) == box_helper(b),
        unbox_call(a) == unbox_call(b),
{
}

/// The message of a failure to box a value.
pub open spec fn box_message() -> Seq<char> {
    "boxing is only implemented for Int/Float/Bool/String/Array/Vec/Struct/Function"@
}

/// The message of a failure to unbox a value.
pub open spec fn unbox_message() -> Seq<char> {
    "unboxing is only implemented for Int/Float/Bool/String/Array/Vec/Struct/Function"@
}

/// The line that boxes `value` of LLVM type `ty` with `helper` into `dest`.
pub open spec fn box_line(dest: Seq<char>, helper: Seq<char>, ty: Seq<char>, value: Seq<char>) -> Seq<char> {
    "  "@ + dest + " = call ptr @"@ + helper + "("@ + ty + " "@ + value + ")"@
}

/// The line that checks the runtime's error flag.
pub open spec fn abort_line() -> Seq<char> {
    "  call void @skp_rt_abort_if_error()"@
}

/// The line that frees the boxed value `value`.
pub open spec fn free_line(value: Seq<char>) -> Seq<char> {
    "  call void @skp_rt_value_free(ptr "@ + value + ")"@
}

/// What boxing `op` as a value of type `ty` emits from counter `c`: its load,
/// then a call of the boxing helper of `ty` into the next scratch register.
#[verifier::opaque]
pub open spec fn boxed(known: Set<usize>, op: Operand, ty: IrType, c: nat, lits: Map<Seq<char>, Seq<char>>) -> Emitted {
    then(load(known, op, c, llvm_type(ty), lits), |v: Seq<char>, c1: nat|
        match box_helper(ty) {
            None => just(c1 + 1, Err(Fault::Unsupported(box_message()))),
            Some(h) => match llvm_type(ty) {
                Err(f) => just(c1 + 1, Err(f)),
                Ok(t) => Emitted { lines: seq![box_line(value_name(c1), h, t, v)], counter: c1 + 1, value: Ok(value_name(c1)) },
            },
        })
}

/// What unboxing `raw` into temp `dst` as a value of type `ty` emits: the
/// unboxing call and the error check; no scratch register is used (the
/// counter is left at 0).
#[verifier::opaque]
pub open spec fn unboxed(known: Set<usize>, dst: TempId, ty: IrType, raw: Seq<char>) -> Emitted {
    match temp_lookup(known, dst.0) {
        Err(f) => just(0, Err(f)),
        Ok(d) => match unbox_call(ty) {
            None => just(0, Err(Fault::Unsupported(unbox_message()))),
            Some(call) => Emitted { lines: seq!["  "@ + d + call + raw + ")"@, abort_line()], counter: 0, value: Ok(seq![]) },
        },
    }
}

pub(crate) fn box_helper_text(ty: &IrType) -> (r: Option<&'static str>)
    ensures
        match box_helper(*ty) {
            Some(h) => r matches Some(s) && s@ == h,
            None => r is None,
        },
{
    match ty {
        IrType::Int => Some("skp_rt_value_from_int"),
        IrType::Float => Some("skp_rt_value_from_float"),
        IrType::Bool => Some("skp_rt_value_from_bool"),
        IrType::String => Some("skp_rt_value_from_string"),
        IrType::Array { .. } => Some("skp_rt_value_from_array"),
        IrType::Vec { .. } => Some("skp_rt_value_from_vec"),
        IrType::Named(_) => Some("skp_rt_value_from_struct"),
        IrType::Fn { .. } => Some("skp_rt_value_from_function"),
        _ => None,
    }
}

pub(crate) fn unbox_call_text(ty: &IrType) -> (r: Option<&'static str>)
    ensures
        match unbox_call(*ty) {
            Some(h) => r matches Some(s) && s@ == h,
            None => r is None,
        },
{
    match ty {
        IrType::Int => Some(" = call i64 @skp_rt_value_to_int(ptr "),
        IrType::Float => Some(" = call double @skp_rt_value_to_float(ptr "),
        IrType::Bool => Some(" = call i1 @skp_rt_value_to_bool(ptr "),
        IrType::String => Some(" = call ptr @skp_rt_value_to_string(ptr "),
        IrType::Array { .. } => Some(" = call ptr @skp_rt_value_to_array(ptr "),
        IrType::Vec { .. } => Some(" = call ptr @skp_rt_value_to_vec(ptr "),
        IrType::Named(_) => Some(" = call ptr @skp_rt_value_to_struct(ptr "),
        IrType::Fn { .. } => Some(" = call i32 @skp_rt_value_to_function(ptr "),
        _ => None,
    }
}

/// Boxes `operand` as a value of type `ty` (see `boxed`) and returns the
/// register of the boxed value.
pub fn emit_boxed_operand(
    func: &IrFunction,
    names: &ValueNames,
    operand: &Operand,
    ty: &IrType,
    lines: &mut Vec<String>,
    counter: &mut usize,
    string_literals: &StringLiterals,
) -> (r: Result<String, CodegenError>)
    requires
        boxed(names@, *operand, *ty, *old(counter) as nat, string_literals@).counter <= usize::MAX,
    ensures
        appended(old(lines)@, final(lines)@, boxed(names@, *operand, *ty, *old(counter) as nat, string_literals@).lines),
        *final(counter) == boxed(names@, *operand, *ty, *old(counter) as nat, string_literals@).counter,
        same_result(boxed(names@, *operand, *ty, *old(counter) as nat, string_literals@).value, r),
{
    reveal(boxed);
    let ghost start = texts(lines@);
    let ghost c0 = *counter as nat;
    let ghost e = boxed(names@, *operand, *ty, c0, string_literals@);
    let ghost l = load(names@, *operand, c0, llvm_type(*ty), string_literals@);
    let value = match operand_load(names, operand, func, lines, counter, ty, string_literals) {
        Ok(v) => v,
        Err(err) => {
            return Err(err);
        },
    };
    let boxed_name = scratch_name(*counter);
    *counter += 1;
    let helper = match box_helper_text(ty) {
        Some(h) => h,
        None => {
            assert(l.lines + seq![] =~= l.lines);
            return Err(CodegenError::Unsupported("boxing is only implemented for Int/Float/Bool/String/Array/Vec/Struct/Function"));
        },
    };
    let t = match llvm_ty(ty) {
        Ok(t) => t,
        Err(err) => {
            assert(l.lines + seq![] =~= l.lines);
            return Err(err);
        },
    };
    let mut line = String::from_str("  ");
    line.append(boxed_name.as_str());
    line.append(" = call ptr @");
    line.append(helper);
    line.append("(");
    line.append(t);
    line.append(" ");
    line.append(value.as_str());
    line.append(")");
    push_line(lines, line);
    assert(texts(lines@) =~= start + e.lines);
    Ok(boxed_name)
}

/// Unboxes `raw` into temp `dst` as a value of type `ty` (see `unboxed`).
pub fn emit_unbox_value(
    names: &ValueNames,
    dst: TempId,
    ty: &IrType,
    raw: &str,
    lines: &mut Vec<String>,
) -> (r: Result<(), CodegenError>)
    ensures
        appended(old(lines)@, final(lines)@, unboxed(names@, dst, *ty, raw@).lines),
        same_outcome(unboxed(names@, dst, *ty, raw@).value, r),
{
    reveal(unboxed);
    let ghost start = texts(lines@);
    let dest = match names.temp(dst) {
        Ok(d) => d,
        Err(e) => {
            assert(start + seq![] =~= start);
            return Err(e);
        },
    };
    let call = match unbox_call_text(ty) {
        Some(c) => c,
        None => {
            assert(start + seq![] =~= start);
            return Err(CodegenError::Unsupported("unboxing is only implemented for Int/Float/Bool/String/Array/Vec/Struct/Function"));
        },
    };
    let mut line = String::from_str("  ");
    line.append(dest);
    line.append(call);
    line.append(raw);
    line.append(")");
    push_line(lines, line);
    emit_abort_if_error(lines);
    assert(texts(lines@) =~= start + unboxed(names@, dst, *ty, raw@).lines);
    Ok(())
}

/// Appends the check of the runtime's error flag.
pub fn emit_abort_if_error(lines: &mut Vec<String>)
    ensures
        texts(final(lines)@) == texts(old(lines)@).push(abort_line()),
{
    push_line(lines, String::from_str("  call void @skp_rt_abort_if_error()"));
}

/// Appends the release of the boxed value `value`.
pub fn emit_free_boxed_value(value: &str, lines: &mut Vec<String>)
    ensures
        texts(final(lines)@) == texts(old(lines)@).push(free_line(value@)),
{
    let mut line = String::from_str("  call void @skp_rt_value_free(ptr ");
    line.append(value);
    line.append(")");
    push_line(lines, line);
}

/// The lines that release each of `values`, in order.
pub open spec fn free_lines(values: Seq<Seq<char>>) -> Seq<Seq<char>> {
    values.map_values(|v: Seq<char>| free_line(v))
}

/// Appends the release of each of `values`, in order.
pub fn emit_free_boxed_values(values: &[String], lines: &mut Vec<String>)
    ensures
        appended(old(lines)@, final(lines)@, free_lines(texts(values@))),
{
    let ghost start = texts(lines@);
    let mut i: usize = 0;
    while i < values.len()
        invariant
            i <= values@.len(),
            texts(lines@) == start + free_lines(texts(values@.take(i as int))),
        decreases values@.len() - i,
    {
        emit_free_boxed_value(values[i].as_str(), lines);
        assert(free_lines(texts(values@.take(i + 1))) =~= free_lines(texts(values@.take(i as int))).push(free_line(values@[i as int]@)));
        assert(texts(lines@) =~= start + free_lines(texts(values@.take(i + 1))));
        i += 1;
    }
    assert(values@.take(i as int) =~= values@);
}

/// The registers of an argument array on the stack and of the boxed values stored in it.
pub struct BoxedArgArray {
    pub array: String,
    pub values: Vec<String>,
}

/// What storing the boxed arguments emits, for `args` being the first
/// arguments, into the array `array`, from counter `c`: each argument boxed
/// as its inferred type, the address of its slot, the store; and the registers
/// of the boxed values. `fault` is the first failure, after which nothing more is emitted.
pub struct BoxedArgs {
    pub lines: Seq<Seq<char>>,
    pub counter: nat,
    pub values: Seq<Seq<char>>,
    pub fault: Option<Fault>,
}

/// The line that computes the address of slot `index` of `array`.
pub open spec fn slot_line(slot: Seq<char>, array: Seq<char>, index: nat) -> Seq<char> {
    "  "@ + slot + " = getelementptr inbounds ptr, ptr "@ + array + ", i64 "@ + decimal(index) + ""@
}

/// The line that stores `value` into `slot`.
pub open spec fn store_ptr_line(value: Seq<char>, slot: Seq<char>) -> Seq<char> {
    "  store ptr "@ + value + ", ptr "@ + slot + ", align 8"@
}

/// What storing argument `arg`, at position `index` of the array `array`,
/// emits from counter `c`: the argument boxed as its inferred type, the
/// address of its slot, the store; the result is the boxed value's register.
#[verifier::opaque]
pub open spec fn arg_step(known: Set<usize>, func: IrFunction, arg: Operand, array: Seq<char>, index: nat, c: nat, lits: Map<Seq<char>, Seq<char>>) -> Emitted {
    then(boxed(known, arg, inferred_type(func, arg), c, lits), |v: Seq<char>, c1: nat|
        Emitted {
            lines: seq![slot_line(value_name(c1), array, index), store_ptr_line(v, value_name(c1))],
            counter: c1 + 1,
            value: Ok(v),
        })
}

/// See `BoxedArgs`.
pub open spec fn boxed_args(known: Set<usize>, func: IrFunction, args: Seq<Operand>, array: Seq<char>, c: nat, lits: Map<Seq<char>, Seq<char>>) -> BoxedArgs
    decreases args.len(),
{
    if args.len() == 0 {
        BoxedArgs { lines: seq![], counter: c, values: seq![], fault: None }
    } else {
        let prev = boxed_args(known, func, args.drop_last(), array, c, lits);
        if prev.fault is Some {
            prev
        } else {
            let step = arg_step(known, func, args.last(), array, (args.len() - 1) as nat, prev.counter, lits);
            match step.value {
                Err(f) => BoxedArgs { lines: prev.lines + step.lines, counter: step.counter, values: prev.values, fault: Some(f) },
                Ok(v) => BoxedArgs { lines: prev.lines + step.lines, counter: step.counter, values: prev.values.push(v), fault: None },
            }
        }
    }
}

/// The line that allocates an array of `len` pointers on the stack.
pub open spec fn alloca_line(array: Seq<char>, len: nat) -> Seq<char> {
    "  "@ + array + " = alloca ptr, i64 "@ + decimal(len) + ", align 8"@
}

/// What `emit_boxed_arg_array` emits from counter `c`: the array (room for
/// at least one pointer) in the next scratch register, then the boxed arguments.
pub open spec fn arg_array(known: Set<usize>, func: IrFunction, args: Seq<Operand>, c: nat, lits: Map<Seq<char>, Seq<char>>) -> BoxedArgs {
    let len: nat = if args.len() > 1 { args.len() } else { 1 };
    let rest = boxed_args(known, func, args, value_name(c), c + 1, lits);
    BoxedArgs { lines: seq![alloca_line(value_name(c), len)] + rest.lines, counter: rest.counter, values: rest.values, fault: rest.fault }
}

/// Boxing advances the counter by at most three.
pub proof fn lemma_boxed_counter(known: Set<usize>, op: Operand, ty: IrType, c: nat, lits: Map<Seq<char>, Seq<char>>)
    ensures
        c <= boxed(known, op, ty, c, lits).counter <= c + 3,
{
    reveal(boxed);
    crate::codegen::llvm::value::lemma_load_counter(known, op, c, llvm_type(ty), lits);
}

/// Boxing as the same type emits the same.
pub proof fn lemma_boxed_same_type(known: Set<usize>, op: Operand, a: IrType, b: IrType, c: nat, lits: Map<Seq<char>, Seq<char>>)
    requires
        same_type(a, b),
    ensures
        boxed(known, op, a, c, lits) == boxed(known, op, b, c, lits),
{
    reveal(boxed);
    lemma_same_type_lowering(a, b);
}

/// `after` ends with what `e` appends to `before`, `counter` is its counter,
/// and `r` succeeds or fails as it does.
pub open spec fn emitted_unit(e: Emitted, before: Seq<String>, after: Seq<String>, counter: usize, r: Result<(), CodegenError>) -> bool {
    &&& appended(before, after, e.lines)
    &&& counter == e.counter
    &&& same_outcome(e.value, r)
}

proof fn lemma_boxed_args_prefix(known: Set<usize>, func: IrFunction, args: Seq<Operand>, array: Seq<char>, c: nat, lits: Map<Seq<char>, Seq<char>>, n: int)
    requires
        0 <= n <= args.len(),
    ensures
        boxed_args(known, func, args.take(n), array, c, lits).counter <= boxed_args(known, func, args, array, c, lits).counter,
        boxed_args(known, func, args.take(n), array, c, lits).fault is Some ==>
            boxed_args(known, func, args, array, c, lits) == boxed_args(known, func, args.take(n), array, c, lits),
    decreases args.len() - n,
{
    if n < args.len() {
        lemma_boxed_args_prefix(known, func, args, array, c, lits, n + 1);
        assert(args.take(n + 1).drop_last() =~= args.take(n));
        reveal(arg_step);
        lemma_boxed_counter(known, args[n], inferred_type(func, args[n]), boxed_args(known, func, args.take(n), array, c, lits).counter, lits);
    } else {
        assert(args.take(n) =~= args);
    }
}

/// An argument array takes at least one scratch register.
pub proof fn lemma_arg_array_counter(known: Set<usize>, func: IrFunction, args: Seq<Operand>, c: nat, lits: Map<Seq<char>, Seq<char>>)
    ensures
        c + 1 <= arg_array(known, func, args, c, lits).counter,
{
    lemma_boxed_args_prefix(known, func, args, value_name(c), c + 1, lits, 0);
    assert(args.take(0) =~= Seq::<Operand>::empty());
}

/// Boxes `arg` as its inferred type and stores it in slot `index` of `array` (see `arg_step`).
fn emit_boxed_arg(
    func: &IrFunction,
    names: &ValueNames,
    arg: &Operand,
    array: &str,
    index: usize,
    lines: &mut Vec<String>,
    counter: &mut usize,
    string_literals: &StringLiterals,
) -> (r: Result<String, CodegenError>)
    requires
        arg_step(names@, *func, *arg, array@, index as nat, *old(counter) as nat, string_literals@).counter <= usize::MAX,
    ensures
        appended(old(lines)@, final(lines)@, arg_step(names@, *func, *arg, array@, index as nat, *old(counter) as nat, string_literals@).lines),
        *final(counter) == arg_step(names@, *func, *arg, array@, index as nat, *old(counter) as nat, string_literals@).counter,
        same_result(arg_step(names@, *func, *arg, array@, index as nat, *old(counter) as nat, string_literals@).value, r),
{
    let ghost start = texts(lines@);
    let ghost c0 = *counter as nat;
    let ghost e = arg_step(names@, *func, *arg, array@, index as nat, c0, string_literals@);
    proof {
        reveal(arg_step);
    }
    let arg_ty = infer_operand_type(func, arg);
    proof {
        lemma_boxed_same_type(names@, *arg, arg_ty, inferred_type(*func, *arg), c0, string_literals@);
    }
    let boxed_value = match emit_boxed_operand(func, names, arg, &arg_ty, lines, counter, string_literals) {
        Ok(b) => b,
        Err(err) => {
            return Err(err);
        },
    };
    let ghost mid = texts(lines@);
    let slot = scratch_name(*counter);
    *counter += 1;
    let mut l1 = String::from_str("  ");
    l1.append(slot.as_str());
    l1.append(" = getelementptr inbounds ptr, ptr ");
    l1.append(array);
    l1.append(", i64 ");
    l1.append(usize_text(index).as_str());
    l1.append("");
    push_line(lines, l1);
    let mut l2 = String::from_str("  store ptr ");
    l2.append(boxed_value.as_str());
    l2.append(", ptr ");
    l2.append(slot.as_str());
    l2.append(", align 8");
    push_line(lines, l2);
    assert(texts(lines@) =~= start + e.lines);
    Ok(boxed_value)
}

/// Allocates an argument array for `args` and stores each argument into it,
/// boxed as its inferred type (see `arg_array`).
pub fn emit_boxed_arg_array(
    func: &IrFunction,
    names: &ValueNames,
    args: &[Operand],
    lines: &mut Vec<String>,
    counter: &mut usize,
    string_literals: &StringLiterals,
) -> (r: Result<BoxedArgArray, CodegenError>)
    requires
        arg_array(names@, *func, args@, *old(counter) as nat, string_literals@).counter <= usize::MAX,
    ensures
        appended(old(lines)@, final(lines)@, arg_array(names@, *func, args@, *old(counter) as nat, string_literals@).lines),
        *final(counter) == arg_array(names@, *func, args@, *old(counter) as nat, string_literals@).counter,
        match arg_array(names@, *func, args@, *old(counter) as nat, string_literals@).fault {
            None => r matches Ok(a) && a.array@ == value_name(*old(counter) as nat)
                && texts(a.values@) == arg_array(names@, *func, args@, *old(counter) as nat, string_literals@).values,
            Some(f) => r matches Err(e) && e@ == f,
        },
{
    let ghost start = texts(lines@);
    let ghost c0 = *counter as nat;
    let ghost lits = string_literals@;
    let ghost total = arg_array(names@, *func, args@, c0, lits);
    proof {
        lemma_boxed_args_prefix(names@, *func, args@, value_name(c0), c0 + 1, lits, 0);
        assert(args@.take(0) =~= Seq::<Operand>::empty());
    }
    let array = scratch_name(*counter);
    *counter += 1;
    let len: usize = if args.len() > 1 { args.len() } else { 1 };
    let mut line = String::from_str("  ");
    line.append(array.as_str());
    line.append(" = alloca ptr, i64 ");
    line.append(usize_text(len).as_str());
    line.append(", align 8");
    push_line(lines, line);
    let ghost head = start.push(alloca_line(value_name(c0), len as nat));
    let mut values: Vec<String> = Vec::new();
    let mut index: usize = 0;
    while index < args.len()
        invariant
            index <= args@.len(),
            c0 == *old(counter) as nat,
            start == texts(old(lines)@),
            array@ == value_name(c0),
            total == arg_array(names@, *func, args@, c0, lits),
            lits == string_literals@,
            total.counter <= usize::MAX,
            head == start.push(alloca_line(value_name(c0), if args@.len() > 1 { args@.len() } else { 1 })),
            boxed_args(names@, *func, args@.take(index as int), array@, c0 + 1, lits).fault is None,
            texts(lines@) == head + boxed_args(names@, *func, args@.take(index as int), array@, c0 + 1, lits).lines,
            *counter == boxed_args(names@, *func, args@.take(index as int), array@, c0 + 1, lits).counter,
            texts(values@) == boxed_args(names@, *func, args@.take(index as int), array@, c0 + 1, lits).values,
        decreases args@.len() - index,
    {
        let ghost prev = boxed_args(names@, *func, args@.take(index as int), array@, c0 + 1, lits);
        let ghost next = boxed_args(names@, *func, args@.take(index + 1), array@, c0 + 1, lits);
        assert(args@.take(index + 1).drop_last() =~= args@.take(index as int));
        assert(args@.take(index + 1).last() == args@[index as int]);
        proof {
            lemma_boxed_args_prefix(names@, *func, args@, array@, c0 + 1, lits, index + 1);
        }
        let ghost step = arg_step(names@, *func, args@[index as int], array@, index as nat, prev.counter, lits);
        assert(next == match step.value {
            Err(f) => BoxedArgs { lines: prev.lines + step.lines, counter: step.counter, values: prev.values, fault: Some(f) },
            Ok(v) => BoxedArgs { lines: prev.lines + step.lines, counter: step.counter, values: prev.values.push(v), fault: None },
        });
        let boxed_value = match emit_boxed_arg(func, names, &args[index], array.as_str(), index, lines, counter, string_literals) {
            Ok(b) => b,
            Err(e) => {
                assert(next.fault is Some);
                assert(total.lines == seq![alloca_line(value_name(c0), if args@.len() > 1 { args@.len() } else { 1 })] + next.lines);
                assert(texts(lines@) =~= start + total.lines);
                return Err(e);
            },
        };
        values.push(boxed_value);
        assert(texts(values@) =~= next.values);
        assert(texts(lines@) =~= head + next.lines);
        index += 1;
    }
    assert(args@.take(index as int) =~= args@);
    assert(texts(lines@) =~= start + total.lines);
    Ok(BoxedArgArray { array, values })
}

} // verus!
