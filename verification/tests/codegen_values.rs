use lib::codegen::llvm::runtime_boxing::{
    emit_abort_if_error, emit_boxed_arg_array, emit_boxed_operand, emit_free_boxed_values, emit_unbox_value,
    infer_operand_type,
};
use lib::codegen::llvm::strings::StringLiterals;
use lib::codegen::llvm::types::llvm_ty;
use lib::codegen::llvm::value::{llvm_symbol, operand_load, operand_value, ValueNames};
use lib::codegen::CodegenError;
use lib::ir::{BlockId, ConstValue, FunctionId, GlobalId, IrFunction, IrLocal, IrTemp, IrType, LocalId, Operand, TempId};

fn function(temps: Vec<(usize, IrType)>, locals: Vec<(usize, IrType)>) -> IrFunction {
    IrFunction {
        id: FunctionId(0),
        name: "main".to_string(),
        params: vec![],
        locals: locals
            .into_iter()
            .map(|(id, ty)| IrLocal { id: LocalId(id), name: format!("l{}", id), ty })
            .collect(),
        temps: temps.into_iter().map(|(id, ty)| IrTemp { id: TempId(id), ty }).collect(),
        ret_ty: IrType::Void,
        entry: BlockId(0),
        blocks: vec![],
    }
}

fn unsupported_type() -> CodegenError {
    CodegenError::Unsupported("only Int/Bool/String/Void lowering is implemented")
}

#[test]
fn llvm_types_of_lowered_ir_types() {
    assert_eq!(llvm_ty(&IrType::Int), Ok("i64"));
    assert_eq!(llvm_ty(&IrType::Bool), Ok("i1"));
    assert_eq!(llvm_ty(&IrType::String), Ok("ptr"));
    assert_eq!(llvm_ty(&IrType::Void), Ok("void"));
    assert_eq!(llvm_ty(&IrType::Float), Err(unsupported_type()));
    assert_eq!(llvm_ty(&IrType::Named("Point".to_string())), Err(unsupported_type()));
}

#[test]
fn value_names_give_each_declared_temp_its_register() {
    let f = function(vec![(0, IrType::Int), (7, IrType::Bool)], vec![]);
    let names = ValueNames::new(&f);
    assert_eq!(names.temp(TempId(7)), Ok("%t7"));
    assert_eq!(names.temp(TempId(0)), Ok("%t0"));
    assert_eq!(names.temp(TempId(3)), Err(CodegenError::InvalidIr("unknown temp TempId(3)".to_string())));
}

#[test]
fn operand_values_of_constants_and_slots() {
    let f = function(vec![(2, IrType::Int)], vec![]);
    let names = ValueNames::new(&f);
    assert_eq!(operand_value(&names, &Operand::Const(ConstValue::Int(-5)), &f), Ok("-5".to_string()));
    assert_eq!(operand_value(&names, &Operand::Const(ConstValue::Int(i64::MIN)), &f), Ok("-9223372036854775808".to_string()));
    assert_eq!(operand_value(&names, &Operand::Const(ConstValue::Bool(true)), &f), Ok("1".to_string()));
    assert_eq!(operand_value(&names, &Operand::Const(ConstValue::Bool(false)), &f), Ok("0".to_string()));
    assert_eq!(operand_value(&names, &Operand::Temp(TempId(2)), &f), Ok("%t2".to_string()));
    assert_eq!(operand_value(&names, &Operand::Local(LocalId(4)), &f), Ok("%local4".to_string()));
    assert_eq!(operand_value(&names, &Operand::Global(GlobalId(3)), &f), Ok("@g3".to_string()));
    assert_eq!(
        operand_value(&names, &Operand::Const(ConstValue::String("s".to_string())), &f),
        Err(CodegenError::Unsupported("string constants require operand_load in LLVM lowering"))
    );
    assert_eq!(
        operand_value(&names, &Operand::Const(ConstValue::Unit), &f),
        Err(CodegenError::Unsupported("string constants require operand_load in LLVM lowering"))
    );
}

#[test]
fn symbols_are_quoted_with_escapes() {
    assert_eq!(llvm_symbol("main"), "@\"main\"");
    assert_eq!(llvm_symbol("a\"b\\c"), "@\"a\\22b\\5Cc\"");
}

#[test]
fn loading_a_string_constant_builds_a_runtime_string() {
    let f = function(vec![], vec![]);
    let names = ValueNames::new(&f);
    let mut lits = StringLiterals::new();
    lits.insert("hi".to_string(), "@.str.0".to_string());
    let mut lines = Vec::new();
    let mut counter = 0usize;
    let r = operand_load(&names, &Operand::Const(ConstValue::String("hi".to_string())), &f, &mut lines, &mut counter, &IrType::String, &lits);
    assert_eq!(r, Ok("%v1".to_string()));
    assert_eq!(counter, 2);
    assert_eq!(
        lines,
        vec![
            "  %v0 = getelementptr inbounds [3 x i8], ptr @.str.0, i64 0, i64 0",
            "  %v1 = call ptr @skp_rt_string_from_utf8(ptr %v0, i64 2)",
        ]
    );
    let missing = operand_load(&names, &Operand::Const(ConstValue::String("no".to_string())), &f, &mut lines, &mut counter, &IrType::String, &lits);
    assert_eq!(missing, Err(CodegenError::InvalidIr("missing string literal declaration".to_string())));
    assert_eq!(counter, 2);
    assert_eq!(lines.len(), 2);
}

#[test]
fn loading_locals_and_globals_reads_their_slots() {
    let f = function(vec![], vec![(1, IrType::Int)]);
    let names = ValueNames::new(&f);
    let lits = StringLiterals::new();
    let mut lines = Vec::new();
    let mut counter = 5usize;
    let r = operand_load(&names, &Operand::Local(LocalId(1)), &f, &mut lines, &mut counter, &IrType::Int, &lits);
    assert_eq!(r, Ok("%v5".to_string()));
    let g = operand_load(&names, &Operand::Global(GlobalId(2)), &f, &mut lines, &mut counter, &IrType::Bool, &lits);
    assert_eq!(g, Ok("%v6".to_string()));
    assert_eq!(lines, vec!["  %v5 = load i64, ptr %local1, align 8", "  %v6 = load i1, ptr @g2, align 8"]);
    let bad = operand_load(&names, &Operand::Local(LocalId(1)), &f, &mut lines, &mut counter, &IrType::Float, &lits);
    assert_eq!(bad, Err(unsupported_type()));
    assert_eq!(counter, 8);
    assert_eq!(lines.len(), 2);
}

#[test]
fn inferred_operand_types() {
    let f = function(vec![(1, IrType::Bool)], vec![(2, IrType::String)]);
    assert_eq!(infer_operand_type(&f, &Operand::Const(ConstValue::Int(1))), IrType::Int);
    assert_eq!(infer_operand_type(&f, &Operand::Const(ConstValue::Float(0))), IrType::Float);
    assert_eq!(infer_operand_type(&f, &Operand::Const(ConstValue::Unit)), IrType::Void);
    assert_eq!(infer_operand_type(&f, &Operand::Temp(TempId(1))), IrType::Bool);
    assert_eq!(infer_operand_type(&f, &Operand::Temp(TempId(9))), IrType::Unknown);
    assert_eq!(infer_operand_type(&f, &Operand::Local(LocalId(2))), IrType::String);
    assert_eq!(infer_operand_type(&f, &Operand::Global(GlobalId(0))), IrType::Unknown);
}

#[test]
fn boxing_and_unboxing_values() {
    let f = function(vec![(0, IrType::Float), (1, IrType::Int)], vec![]);
    let names = ValueNames::new(&f);
    let lits = StringLiterals::new();
    let mut lines = Vec::new();
    let mut counter = 0usize;
    let boxed = emit_boxed_operand(&f, &names, &Operand::Const(ConstValue::Int(5)), &IrType::Int, &mut lines, &mut counter, &lits);
    assert_eq!(boxed, Ok("%v0".to_string()));
    assert_eq!(lines, vec!["  %v0 = call ptr @skp_rt_value_from_int(i64 5)"]);
    let float = emit_boxed_operand(&f, &names, &Operand::Temp(TempId(0)), &IrType::Float, &mut lines, &mut counter, &lits);
    assert_eq!(float, Err(unsupported_type()));
    assert_eq!(counter, 2);
    let void = emit_boxed_operand(&f, &names, &Operand::Temp(TempId(1)), &IrType::Void, &mut lines, &mut counter, &lits);
    assert_eq!(
        void,
        Err(CodegenError::Unsupported("boxing is only implemented for Int/Float/Bool/String/Array/Vec/Struct/Function"))
    );
    assert_eq!(lines.len(), 1);
    let mut out = Vec::new();
    assert_eq!(emit_unbox_value(&names, TempId(1), &IrType::Int, "%v9", &mut out), Ok(()));
    assert_eq!(out, vec!["  %t1 = call i64 @skp_rt_value_to_int(ptr %v9)", "  call void @skp_rt_abort_if_error()"]);
    assert_eq!(
        emit_unbox_value(&names, TempId(1), &IrType::Unknown, "%v9", &mut out),
        Err(CodegenError::Unsupported("unboxing is only implemented for Int/Float/Bool/String/Array/Vec/Struct/Function"))
    );
    assert_eq!(
        emit_unbox_value(&names, TempId(5), &IrType::Int, "%v9", &mut out),
        Err(CodegenError::InvalidIr("unknown temp TempId(5)".to_string()))
    );
    assert_eq!(out.len(), 2);
}

#[test]
fn boxed_argument_arrays_store_each_argument() {
    let f = function(vec![], vec![]);
    let names = ValueNames::new(&f);
    let lits = StringLiterals::new();
    let mut lines = Vec::new();
    let mut counter = 0usize;
    let args = vec![Operand::Const(ConstValue::Int(1)), Operand::Const(ConstValue::Bool(true))];
    let array = emit_boxed_arg_array(&f, &names, &args, &mut lines, &mut counter, &lits).unwrap();
    assert_eq!(array.array, "%v0");
    assert_eq!(array.values, vec!["%v1", "%v3"]);
    assert_eq!(counter, 5);
    assert_eq!(
        lines,
        vec![
            "  %v0 = alloca ptr, i64 2, align 8",
            "  %v1 = call ptr @skp_rt_value_from_int(i64 1)",
            "  %v2 = getelementptr inbounds ptr, ptr %v0, i64 0",
            "  store ptr %v1, ptr %v2, align 8",
            "  %v3 = call ptr @skp_rt_value_from_bool(i1 1)",
            "  %v4 = getelementptr inbounds ptr, ptr %v0, i64 1",
            "  store ptr %v3, ptr %v4, align 8",
        ]
    );
    let mut empty_lines = Vec::new();
    let empty = emit_boxed_arg_array(&f, &names, &[], &mut empty_lines, &mut counter, &lits).unwrap();
    assert_eq!(empty.array, "%v5");
    assert_eq!(empty_lines, vec!["  %v5 = alloca ptr, i64 1, align 8"]);
    let mut freed = Vec::new();
    emit_free_boxed_values(&array.values, &mut freed);
    emit_abort_if_error(&mut freed);
    assert_eq!(
        freed,
        vec![
            "  call void @skp_rt_value_free(ptr %v1)",
            "  call void @skp_rt_value_free(ptr %v3)",
            "  call void @skp_rt_abort_if_error()",
        ]
    );
}
