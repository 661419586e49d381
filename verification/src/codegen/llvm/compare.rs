//! Comparisons: integer and boolean `icmp`, float `fcmp`, string equality.

use vstd::prelude::*;
use vstd::string::StringExecFns;

use crate::codegen::{texts, CodegenError, Fault};
use crate::codegen::llvm::runtime_boxing::{declared_local_type, declared_temp_type, emitted_unit, local_type, temp_type};
use crate::codegen::llvm::strings::StringLiterals;
use crate::codegen::llvm::types::{llvm_ty, llvm_type};
use crate::codegen::llvm::value::{
    just, lemma_load_counter, load, operand_load, push_line, scratch_name, then, value_name, Emitted, ValueNames,
};
use crate::ir::consts::{float_compare, float_is_nan, float_key, int_compare};
use crate::ir::{copy_type, same_type, CmpOp, ConstValue, IrFunction, IrGlobal, IrProgram, IrType, Operand};

verus! {

broadcast use vstd::std_specs::vec::group_vec_axioms;

/// The `icmp` predicate of a comparison (signed for orderings).
pub open spec fn int_predicate(op: CmpOp) -> Seq<char> {
    match op {
        CmpOp::Eq => "eq"@,
        CmpOp::Ne => "ne"@,
        CmpOp::Lt => "slt"@,
        CmpOp::Le => "sle"@,
        CmpOp::Gt => "sgt"@,
        CmpOp::Ge => "sge"@,
    }
}

/// What LLVM's `icmp` with predicate `pred` yields on two `i64` values `a`
/// and `b`: the signed predicates compare them as integers, the unsigned
/// ones as their two's complement bit patterns.
pub open spec fn integer_predicate_holds(pred: Seq<char>, a: int, b: int) -> bool {
    let ua = if a < 0 { a + 0x1_0000_0000_0000_0000 } else { a };
    let ub = if b < 0 { b + 0x1_0000_0000_0000_0000 } else { b };
    if pred == "eq"@ {
        a == b
    } else if pred == "ne"@ {
        a != b
    } else if pred == "slt"@ {
        a < b
    } else if pred == "sle"@ {
        a <= b
    } else if pred == "sgt"@ {
        a > b
    } else if pred == "sge"@ {
        a >= b
    } else if pred == "ult"@ {
        ua < ub
    } else if pred == "ule"@ {
        ua <= ub
    } else if pred == "ugt"@ {
        ua > ub
    } else if pred == "uge"@ {
        ua >= ub
    } else {
        false
    }
}

/// The `icmp` predicate that an integer comparison is emitted with decides,
/// on every pair of `i64` values, the comparison that constant folding
/// computes.
pub proof fn lemma_int_predicate_decides(op: CmpOp, a: int, b: int)
    requires
        i64::MIN <= a <= i64::MAX,
        i64::MIN <= b <= i64::MAX,
    ensures
        integer_predicate_holds(int_predicate(op), a, b) == int_compare(op, a, b),
{
    reveal_strlit("eq");
    reveal_strlit("ne");
    reveal_strlit("slt");
    reveal_strlit("sle");
    reveal_strlit("sgt");
    reveal_strlit("sge");
    match op {
        CmpOp::Eq => {},
        CmpOp::Ne => {
            assert("ne"@[0] != "eq"@[0]);
        },
        CmpOp::Lt => {
            assert("slt"@.len() != "eq"@.len());
            assert("slt"@.len() != "ne"@.len());
        },
        CmpOp::Le => {
            assert("sle"@.len() != "eq"@.len());
            assert("sle"@.len() != "ne"@.len());
            assert("sle"@[2] != "slt"@[2]);
        },
        CmpOp::Gt => {
            assert("sgt"@.len() != "eq"@.len());
            assert("sgt"@.len() != "ne"@.len());
            assert("sgt"@[1] != "slt"@[1]);
            assert("sgt"@[1] != "sle"@[1]);
        },
        CmpOp::Ge => {
            assert("sge"@.len() != "eq"@.len());
            assert("sge"@.len() != "ne"@.len());
            assert("sge"@[1] != "slt"@[1]);
            assert("sge"@[1] != "sle"@[1]);
            assert("sge"@[2] != "sgt"@[2]);
        },
    }
}

/// The `fcmp` predicate of a comparison (ordered).
pub open spec fn float_predicate(op: CmpOp) -> Seq<char> {
    match op {
        CmpOp::Eq => "oeq"@,
        CmpOp::Ne => "one"@,
        CmpOp::Lt => "olt"@,
        CmpOp::Le => "ole"@,
        CmpOp::Gt => "ogt"@,
        CmpOp::Ge => "oge"@,
    }
}

/// What LLVM's `fcmp` with an ordered predicate `pred` yields on two
/// binary64 values given by their encodings: false where either is a NaN,
/// else the comparison of their values.
pub open spec fn ordered_float_predicate_holds(pred: Seq<char>, a: u64, b: u64) -> bool {
    let x = float_key(a);
    let y = float_key(b);
    !float_is_nan(a) && !float_is_nan(b) && (if pred == "oeq"@ {
        x == y
    } else if pred == "one"@ {
        x != y
    } else if pred == "olt"@ {
        x < y
    } else if pred == "ole"@ {
        x <= y
    } else if pred == "ogt"@ {
        x > y
    } else if pred == "oge"@ {
        x >= y
    } else {
        false
    })
}

/// The `fcmp` predicate that a float comparison is emitted with is false
/// where either value is a NaN, and elsewhere decides the comparison that
/// constant folding computes.
pub proof fn lemma_float_predicate_decides(op: CmpOp, a: u64, b: u64)
    ensures
        ordered_float_predicate_holds(float_predicate(op), a, b)
            == (!float_is_nan(a) && !float_is_nan(b) && float_compare(op, a, b)),
{
    reveal_strlit("oeq");
    reveal_strlit("one");
    reveal_strlit("olt");
    reveal_strlit("ole");
    reveal_strlit("ogt");
    reveal_strlit("oge");
    match op {
        CmpOp::Eq => {},
        CmpOp::Ne => {
            assert("one"@[1] != "oeq"@[1]);
        },
        CmpOp::Lt => {
            assert("olt"@[1] != "oeq"@[1]);
            assert("olt"@[1] != "one"@[1]);
        },
        CmpOp::Le => {
            assert("ole"@[1] != "oeq"@[1]);
            assert("ole"@[1] != "one"@[1]);
            assert("ole"@[2] != "olt"@[2]);
        },
        CmpOp::Gt => {
            assert("ogt"@[1] != "oeq"@[1]);
            assert("ogt"@[1] != "one"@[1]);
            assert("ogt"@[1] != "olt"@[1]);
            assert("ogt"@[1] != "ole"@[1]);
        },
        CmpOp::Ge => {
            assert("oge"@[1] != "oeq"@[1]);
            assert("oge"@[1] != "one"@[1]);
            assert("oge"@[1] != "olt"@[1]);
            assert("oge"@[1] != "ole"@[1]);
            assert("oge"@[2] != "ogt"@[2]);
        },
    }
}

fn int_predicate_text(op: CmpOp) -> (r: &'static str)
    ensures
        r@ == int_predicate(op),
{
    match op {
        CmpOp::Eq => "eq",
        CmpOp::Ne => "ne",
        CmpOp::Lt => "slt",
        CmpOp::Le => "sle",
        CmpOp::Gt => "sgt",
        CmpOp::Ge => "sge",
    }
}

fn float_predicate_text(op: CmpOp) -> (r: &'static str)
    ensures
        r@ == float_predicate(op),
{
    match op {
        CmpOp::Eq => "oeq",
        CmpOp::Ne => "one",
        CmpOp::Lt => "olt",
        CmpOp::Le => "ole",
        CmpOp::Gt => "ogt",
        CmpOp::Ge => "oge",
    }
}

/// The message of an ordering comparison of strings.
pub open spec fn string_ordering_message() -> Seq<char> {
    "string ordering comparisons are not implemented in LLVM lowering"@
}

/// What `emit_compare` emits from counter `c`: both operands loaded as
/// `ty`; then for strings a call of `skp_rt_string_eq` into the next scratch
/// register and `dest` as that result (`Eq`) or its negation (`Ne`), any
/// ordering failing; for floats an ordered `fcmp`; for any other type an
/// `icmp` on its LLVM type.
pub open spec fn compare(known: Set<usize>, dest: Seq<char>, op: CmpOp, left: Operand, right: Operand, ty: IrType, c: nat,
    lits: Map<Seq<char>, Seq<char>>) -> Emitted
{
    then(load(known, left, c, llvm_type(ty), lits), |l: Seq<char>, c1: nat|
        then(load(known, right, c1, llvm_type(ty), lits), |r: Seq<char>, c2: nat|
            match ty {
                IrType::String => {
                    let eq = value_name(c2);
                    let call = "  "@ + eq + " = call i1 @skp_rt_string_eq(ptr "@ + l + ", ptr "@ + r + ")"@;
                    match op {
                        CmpOp::Eq => Emitted { lines: seq![call, "  "@ + dest + " = xor i1 "@ + eq + ", false"@], counter: c2 + 1, value: Ok(seq![]) },
                        CmpOp::Ne => Emitted { lines: seq![call, "  "@ + dest + " = xor i1 "@ + eq + ", true"@], counter: c2 + 1, value: Ok(seq![]) },
                        _ => Emitted { lines: seq![call], counter: c2 + 1, value: Err(Fault::Unsupported(string_ordering_message())) },
                    }
                },
                IrType::Float => Emitted {
                    lines: seq!["  "@ + dest + " = fcmp "@ + float_predicate(op) + " double "@ + l + ", "@ + r],
                    counter: c2,
                    value: Ok(seq![]),
                },
                _ => match llvm_type(ty) {
                    Err(f) => just(c2, Err(f)),
                    Ok(t) => Emitted {
                        lines: seq!["  "@ + dest + " = icmp "@ + int_predicate(op) + " "@ + t + " "@ + l + ", "@ + r],
                        counter: c2,
                        value: Ok(seq![]),
                    },
                },
            }))
}

/// Compares `left` with `right` as values of type `compare_ty`, into `dest` (see `compare`).
#[verifier::rlimit(30)]
pub fn emit_compare(
    names: &ValueNames,
    func: &IrFunction,
    string_literals: &StringLiterals,
    dest: &str,
    op: CmpOp,
    left: &Operand,
    right: &Operand,
    compare_ty: &IrType,
    lines: &mut Vec<String>,
    counter: &mut usize,
) -> (r: Result<(), CodegenError>)
    requires
        compare(names@, dest@, op, *left, *right, *compare_ty, *old(counter) as nat, string_literals@).counter <= usize::MAX,
    ensures
        emitted_unit(compare(names@, dest@, op, *left, *right, *compare_ty, *old(counter) as nat, string_literals@),
            old(lines)@, final(lines)@, *final(counter), r),
{
    let ghost start = texts(lines@);
    let ghost c0 = *counter as nat;
    let ghost e = compare(names@, dest@, op, *left, *right, *compare_ty, c0, string_literals@);
    let ghost ll = load(names@, *left, c0, llvm_type(*compare_ty), string_literals@);
    proof {
        lemma_load_counter(names@, *left, c0, llvm_type(*compare_ty), string_literals@);
        lemma_load_counter(names@, *right, ll.counter, llvm_type(*compare_ty), string_literals@);
    }
    let l = match operand_load(names, left, func, lines, counter, compare_ty, string_literals) {
        Ok(v) => v,
        Err(err) => {
            return Err(err);
        },
    };
    let r = match operand_load(names, right, func, lines, counter, compare_ty, string_literals) {
        Ok(v) => v,
        Err(err) => {
            assert(texts(lines@) =~= start + e.lines);
            return Err(err);
        },
    };
    match compare_ty {
        IrType::String => {
            let eq = scratch_name(*counter);
            *counter += 1;
            let mut call = String::from_str("  ");
            call.append(eq.as_str());
            call.append(" = call i1 @skp_rt_string_eq(ptr ");
            call.append(l.as_str());
            call.append(", ptr ");
            call.append(r.as_str());
            call.append(")");
            push_line(lines, call);
            let tail = match op {
                CmpOp::Eq => ", false",
                CmpOp::Ne => ", true",
                _ => {
                    assert(texts(lines@) =~= start + e.lines);
                    return Err(CodegenError::Unsupported("string ordering comparisons are not implemented in LLVM lowering"));
                },
            };
            let mut line = String::from_str("  ");
            line.append(dest);
            line.append(" = xor i1 ");
            line.append(eq.as_str());
            line.append(tail);
            push_line(lines, line);
        },
        IrType::Float => {
            let mut line = String::from_str("  ");
            line.append(dest);
            line.append(" = fcmp ");
            line.append(float_predicate_text(op));
            line.append(" double ");
            line.append(l.as_str());
            line.append(", ");
            line.append(r.as_str());
            push_line(lines, line);
        },
        _ => {
            let t = match llvm_ty(compare_ty) {
                Ok(t) => t,
                Err(err) => {
                    assert(texts(lines@) =~= start + e.lines);
                    return Err(err);
                },
            };
            let mut line = String::from_str("  ");
            line.append(dest);
            line.append(" = icmp ");
            line.append(int_predicate_text(op));
            line.append(" ");
            line.append(t);
            line.append(" ");
            line.append(l.as_str());
            line.append(", ");
            line.append(r.as_str());
            push_line(lines, line);
        },
    }
    assert(texts(lines@) =~= start + e.lines);
    Ok(())
}

/// The type of the first global of `globals` with id `id`.
pub open spec fn global_type(globals: Seq<IrGlobal>, id: usize) -> Option<IrType>
    decreases globals.len(),
{
    if globals.len() == 0 {
        None
    } else {
        match global_type(globals.drop_last(), id) {
            Some(t) => Some(t),
            None => if globals.last().id.0 == id { Some(globals.last().ty) } else { None },
        }
    }
}

proof fn lemma_global_type_prefix(globals: Seq<IrGlobal>, id: usize, n: int)
    requires
        0 <= n <= globals.len(),
        global_type(globals.take(n), id) is Some,
    ensures
        global_type(globals, id) == global_type(globals.take(n), id),
    decreases globals.len() - n,
{
    if n < globals.len() {
        assert(globals.take(n + 1).drop_last() =~= globals.take(n));
        lemma_global_type_prefix(globals, id, n + 1);
    } else {
        assert(globals.take(n) =~= globals);
    }
}

/// The type a comparison operand is known to have: a constant's type (none
/// for unit), or the declared type of the first temp, local or global with its id.
pub open spec fn compare_operand_type(program: IrProgram, func: IrFunction, op: Operand) -> Option<IrType> {
    match op {
        Operand::Const(ConstValue::Int(_)) => Some(IrType::Int),
        Operand::Const(ConstValue::Float(_)) => Some(IrType::Float),
        Operand::Const(ConstValue::Bool(_)) => Some(IrType::Bool),
        Operand::Const(ConstValue::String(_)) => Some(IrType::String),
        Operand::Const(ConstValue::Unit) => None,
        Operand::Temp(id) => temp_type(func.temps@, id.0),
        Operand::Local(id) => local_type(func.locals@, id.0),
        Operand::Global(id) => global_type(program.globals@, id.0),
    }
}

/// The type of a comparison operand (see `compare_operand_type`).
fn compare_operand_type_of(program: &IrProgram, func: &IrFunction, operand: &Operand) -> (r: Option<IrType>)
    ensures
        match compare_operand_type(*program, *func, *operand) {
            Some(t) => r matches Some(x) && same_type(x, t),
            None => r is None,
        },
{
    match operand {
        Operand::Const(ConstValue::Int(_)) => Some(IrType::Int),
        Operand::Const(ConstValue::Float(_)) => Some(IrType::Float),
        Operand::Const(ConstValue::Bool(_)) => Some(IrType::Bool),
        Operand::Const(ConstValue::String(_)) => Some(IrType::String),
        Operand::Const(ConstValue::Unit) => None,
        Operand::Temp(id) => declared_temp_type(&func.temps, *id),
        Operand::Local(id) => declared_local_type(&func.locals, *id),
        Operand::Global(id) => {
            let mut i: usize = 0;
            while i < program.globals.len()
                invariant
                    i <= program.globals@.len(),
                    *operand == Operand::Global(*id),
                    global_type(program.globals@.take(i as int), id.0) is None,
                decreases program.globals@.len() - i,
            {
                assert(program.globals@.take(i + 1).drop_last() =~= program.globals@.take(i as int));
                if program.globals[i].id == *id {
                    proof {
                        lemma_global_type_prefix(program.globals@, id.0, i + 1);
                    }
                    return Some(copy_type(&program.globals[i].ty));
                }
                i += 1;
            }
            assert(program.globals@.take(i as int) =~= program.globals@);
            None
        },
    }
}

/// The type under which a comparison compares: that of the left operand if
/// known, else that of the right operand if known, else Int.
pub open spec fn compare_type(program: IrProgram, func: IrFunction, left: Operand, right: Operand) -> IrType {
    match compare_operand_type(program, func, left) {
        Some(t) => t,
        None => match compare_operand_type(program, func, right) {
            Some(t) => t,
            None => IrType::Int,
        },
    }
}

/// The type under which `left` and `right` are compared (see `compare_type`).
pub fn infer_compare_operand_type(program: &IrProgram, func: &IrFunction, left: &Operand, right: &Operand) -> (r: IrType)
    ensures
        same_type(r, compare_type(*program, *func, *left, *right)),
{
    match compare_operand_type_of(program, func, left) {
        Some(t) => t,
        None => match compare_operand_type_of(program, func, right) {
            Some(t) => t,
            None => IrType::Int,
        },
    }
}

} // verus!
