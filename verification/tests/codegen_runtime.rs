use lib::codegen::llvm::runtime::{
    emit_array_get, emit_array_set, emit_builtin_call, emit_indirect_call, emit_make_array, emit_make_array_repeat,
    emit_make_struct, emit_runtime_decls, emit_struct_get, emit_struct_set, emit_vec_delete, emit_vec_get,
    emit_vec_len, emit_vec_new, emit_vec_push, emit_vec_set, BuiltinCallInstr,
};
use lib::codegen::llvm::strings::StringLiterals;
use lib::codegen::llvm::value::ValueNames;
use lib::codegen::CodegenError;
use lib::ir::{
    BlockId, BuiltinCall, ConstValue, FieldRef, FunctionId, IrFunction, IrParam, IrProgram, IrStruct, IrTemp, IrType,
    LocalId, Operand, StructField, StructId, TempId,
};

const ABORT: &str = "  call void @skp_rt_abort_if_error()";

fn function(id: usize, name: &str, temps: Vec<(usize, IrType)>) -> IrFunction {
    IrFunction {
        id: FunctionId(id),
        name: name.to_string(),
        params: vec![],
        locals: vec![],
        temps: temps.into_iter().map(|(id, ty)| IrTemp { id: TempId(id), ty }).collect(),
        ret_ty: IrType::Void,
        entry: BlockId(0),
        blocks: vec![],
    }
}

fn int_op(v: i64) -> Operand {
    Operand::Const(ConstValue::Int(v))
}

fn fn_type(params: Vec<IrType>, ret: IrType) -> IrType {
    IrType::Fn { params, ret: Box::new(ret) }
}

#[test]
fn vector_operations() {
    let f = function(0, "main", vec![(0, IrType::Vec { elem: Box::new(IrType::Int) }), (1, IrType::Int), (2, IrType::Int)]);
    let names = ValueNames::new(&f);
    let lits = StringLiterals::new();
    let mut lines = Vec::new();
    let mut counter = 0usize;
    assert_eq!(emit_vec_new(&names, TempId(0), &mut lines), Ok(()));
    assert_eq!(emit_vec_len(&f, &names, TempId(1), &Operand::Temp(TempId(0)), &mut lines, &mut counter, &lits), Ok(()));
    assert_eq!(emit_vec_push(&f, &names, &IrType::Unknown, &Operand::Temp(TempId(0)), &int_op(4), &mut lines, &mut counter, &lits), Ok(()));
    assert_eq!(emit_vec_get(&f, &names, TempId(2), &IrType::Int, &Operand::Temp(TempId(0)), &int_op(3), &mut lines, &mut counter, &lits), Ok(()));
    assert_eq!(emit_vec_set(&f, &names, &IrType::Int, &Operand::Temp(TempId(0)), &int_op(0), &int_op(9), &mut lines, &mut counter, &lits), Ok(()));
    assert_eq!(emit_vec_delete(&f, &names, TempId(2), &IrType::Int, &Operand::Temp(TempId(0)), &int_op(1), &mut lines, &mut counter, &lits), Ok(()));
    assert_eq!(counter, 4);
    assert_eq!(
        lines,
        vec![
            "  %t0 = call ptr @skp_rt_vec_new()",
            "  %t1 = call i64 @skp_rt_vec_len(ptr %t0)",
            "  %v0 = call ptr @skp_rt_value_from_int(i64 4)",
            "  call void @skp_rt_vec_push(ptr %t0, ptr %v0)",
            ABORT,
            "  call void @skp_rt_value_free(ptr %v0)",
            "  %v1 = call ptr @skp_rt_vec_get(ptr %t0, i64 3)",
            ABORT,
            "  %t2 = call i64 @skp_rt_value_to_int(ptr %v1)",
            ABORT,
            "  %v2 = call ptr @skp_rt_value_from_int(i64 9)",
            "  call void @skp_rt_vec_set(ptr %t0, i64 0, ptr %v2)",
            ABORT,
            "  call void @skp_rt_value_free(ptr %v2)",
            "  %v3 = call ptr @skp_rt_vec_delete(ptr %t0, i64 1)",
            ABORT,
            "  %t2 = call i64 @skp_rt_value_to_int(ptr %v3)",
            ABORT,
        ]
    );
}

#[test]
fn a_vector_held_in_a_local_cannot_be_loaded() {
    let f = function(0, "main", vec![(1, IrType::Int)]);
    let names = ValueNames::new(&f);
    let lits = StringLiterals::new();
    let mut lines = Vec::new();
    let mut counter = 0usize;
    let r = emit_vec_len(&f, &names, TempId(1), &Operand::Local(LocalId(0)), &mut lines, &mut counter, &lits);
    assert_eq!(r, Err(CodegenError::Unsupported("only Int/Bool/String/Void lowering is implemented")));
    assert_eq!(counter, 1);
    assert!(lines.is_empty());
    assert_eq!(emit_vec_new(&names, TempId(8), &mut lines), Err(CodegenError::InvalidIr("unknown temp TempId(8)".to_string())));
}

#[test]
fn array_operations() {
    let f = function(0, "main", vec![(0, IrType::Bool), (1, IrType::Array { elem: Box::new(IrType::Int), size: 2 })]);
    let names = ValueNames::new(&f);
    let lits = StringLiterals::new();
    let mut lines = Vec::new();
    let mut counter = 0usize;
    assert_eq!(emit_make_array(&f, &names, TempId(1), &IrType::Int, &[int_op(1), int_op(2)], &mut lines, &mut counter, &lits), Ok(()));
    assert_eq!(emit_make_array_repeat(&f, &names, TempId(1), &IrType::Int, &int_op(0), 4, &mut lines, &mut counter, &lits), Ok(()));
    assert_eq!(emit_array_get(&f, &names, TempId(0), &IrType::Bool, &Operand::Temp(TempId(1)), &int_op(1), &mut lines, &mut counter, &lits), Ok(()));
    assert_eq!(emit_array_set(&f, &names, &IrType::Int, &Operand::Temp(TempId(1)), &int_op(0), &int_op(7), &mut lines, &mut counter, &lits), Ok(()));
    assert_eq!(counter, 5);
    assert_eq!(
        lines,
        vec![
            "  %t1 = call ptr @skp_rt_array_new(i64 2)",
            "  %v0 = call ptr @skp_rt_value_from_int(i64 1)",
            "  call void @skp_rt_array_set(ptr %t1, i64 0, ptr %v0)",
            ABORT,
            "  call void @skp_rt_value_free(ptr %v0)",
            "  %v1 = call ptr @skp_rt_value_from_int(i64 2)",
            "  call void @skp_rt_array_set(ptr %t1, i64 1, ptr %v1)",
            ABORT,
            "  call void @skp_rt_value_free(ptr %v1)",
            "  %v2 = call ptr @skp_rt_value_from_int(i64 0)",
            "  %t1 = call ptr @skp_rt_array_repeat(ptr %v2, i64 4)",
            ABORT,
            "  call void @skp_rt_value_free(ptr %v2)",
            "  %v3 = call ptr @skp_rt_array_get(ptr %t1, i64 1)",
            ABORT,
            "  %t0 = call i1 @skp_rt_value_to_bool(ptr %v3)",
            ABORT,
            "  %v4 = call ptr @skp_rt_value_from_int(i64 7)",
            "  call void @skp_rt_array_set(ptr %t1, i64 0, ptr %v4)",
            ABORT,
            "  call void @skp_rt_value_free(ptr %v4)",
        ]
    );
}

fn point_program() -> IrProgram {
    IrProgram {
        functions: vec![],
        globals: vec![],
        structs: vec![IrStruct {
            id: StructId(3),
            name: "Point".to_string(),
            fields: vec![
                StructField { name: "x".to_string(), ty: IrType::Int },
                StructField { name: "ok".to_string(), ty: IrType::Bool },
            ],
        }],
        module_init: None,
    }
}

#[test]
fn struct_operations() {
    let program = point_program();
    let f = function(0, "main", vec![(0, IrType::Named("Point".to_string())), (1, IrType::Int)]);
    let names = ValueNames::new(&f);
    let lits = StringLiterals::new();
    let mut lines = Vec::new();
    let mut counter = 0usize;
    let fields = [int_op(5), Operand::Const(ConstValue::Bool(false))];
    assert_eq!(emit_make_struct(&program, &f, &names, TempId(0), StructId(3), &fields, &mut lines, &mut counter, &lits), Ok(()));
    let field = FieldRef { index: 1, name: "ok".to_string() };
    assert_eq!(emit_struct_get(&f, &names, TempId(1), &IrType::Int, &Operand::Temp(TempId(0)), &field, &mut lines, &mut counter, &lits), Ok(()));
    assert_eq!(
        emit_struct_set(&f, &names, &IrType::Bool, &Operand::Temp(TempId(0)), &field, &Operand::Const(ConstValue::Bool(true)), &mut lines, &mut counter, &lits),
        Ok(())
    );
    assert_eq!(
        lines,
        vec![
            "  %t0 = call ptr @skp_rt_struct_new(i64 3, i64 2)",
            "  %v0 = call ptr @skp_rt_value_from_int(i64 5)",
            "  call void @skp_rt_struct_set(ptr %t0, i64 0, ptr %v0)",
            ABORT,
            "  call void @skp_rt_value_free(ptr %v0)",
            "  %v1 = call ptr @skp_rt_value_from_bool(i1 0)",
            "  call void @skp_rt_struct_set(ptr %t0, i64 1, ptr %v1)",
            ABORT,
            "  call void @skp_rt_value_free(ptr %v1)",
            "  %v2 = call ptr @skp_rt_struct_get(ptr %t0, i64 1)",
            ABORT,
            "  %t1 = call i64 @skp_rt_value_to_int(ptr %v2)",
            ABORT,
            "  %v3 = call ptr @skp_rt_value_from_bool(i1 1)",
            "  call void @skp_rt_struct_set(ptr %t0, i64 1, ptr %v3)",
            ABORT,
            "  call void @skp_rt_value_free(ptr %v3)",
        ]
    );
    let mut more = Vec::new();
    assert_eq!(
        emit_make_struct(&program, &f, &names, TempId(0), StructId(9), &fields, &mut more, &mut counter, &lits),
        Err(CodegenError::InvalidIr("unknown struct StructId(9)".to_string()))
    );
    assert!(more.is_empty());
}

#[test]
fn a_struct_with_more_values_than_fields_stores_only_its_fields() {
    let program = point_program();
    let f = function(0, "main", vec![(0, IrType::Named("Point".to_string()))]);
    let names = ValueNames::new(&f);
    let lits = StringLiterals::new();
    let mut lines = Vec::new();
    let mut counter = 0usize;
    let fields = [int_op(1), Operand::Const(ConstValue::Bool(true)), int_op(3)];
    assert_eq!(emit_make_struct(&program, &f, &names, TempId(0), StructId(3), &fields, &mut lines, &mut counter, &lits), Ok(()));
    assert_eq!(lines[0], "  %t0 = call ptr @skp_rt_struct_new(i64 3, i64 3)");
    assert_eq!(lines.len(), 9);
    assert_eq!(counter, 2);
}

#[test]
fn string_builtins_call_their_helpers_directly() {
    let f = function(0, "main", vec![(0, IrType::String), (1, IrType::Int)]);
    let names = ValueNames::new(&f);
    let lits = StringLiterals::new();
    let mut lines = Vec::new();
    let mut counter = 0usize;
    let len = BuiltinCall { package: "str".to_string(), name: "len".to_string() };
    let args = [Operand::Temp(TempId(0))];
    let call = BuiltinCallInstr { dst: Some(TempId(1)), ret_ty: &IrType::Int, builtin: &len, args: &args };
    assert_eq!(emit_builtin_call(&f, &names, call, &mut lines, &mut counter, &lits), Ok(()));
    assert_eq!(lines, vec!["  %t1 = call i64 @skp_rt_builtin_str_len(ptr %t0)", ABORT]);
    let slice = BuiltinCall { package: "str".to_string(), name: "slice".to_string() };
    let slice_args = [Operand::Temp(TempId(0)), int_op(1), int_op(3)];
    let call = BuiltinCallInstr { dst: Some(TempId(0)), ret_ty: &IrType::String, builtin: &slice, args: &slice_args };
    assert_eq!(emit_builtin_call(&f, &names, call, &mut lines, &mut counter, &lits), Ok(()));
    assert_eq!(lines[2], "  %t0 = call ptr @skp_rt_builtin_str_slice(ptr %t0, i64 1, i64 3)");
    let call = BuiltinCallInstr { dst: Some(TempId(1)), ret_ty: &IrType::Int, builtin: &len, args: &slice_args };
    assert_eq!(
        emit_builtin_call(&f, &names, call, &mut lines, &mut counter, &lits),
        Err(CodegenError::InvalidIr("builtin arity mismatch for str.len".to_string()))
    );
    let call = BuiltinCallInstr { dst: None, ret_ty: &IrType::Int, builtin: &len, args: &args };
    assert_eq!(
        emit_builtin_call(&f, &names, call, &mut lines, &mut counter, &lits),
        Err(CodegenError::InvalidIr("non-void builtin call must write to a destination temp".to_string()))
    );
    assert_eq!(counter, 0);
}

#[test]
fn other_builtins_go_through_the_runtime() {
    let f = function(0, "main", vec![]);
    let names = ValueNames::new(&f);
    let mut lits = StringLiterals::new();
    lits.insert("io".to_string(), "@.str.0".to_string());
    lits.insert("println".to_string(), "@.str.1".to_string());
    lits.insert("hi".to_string(), "@.str.2".to_string());
    let mut lines = Vec::new();
    let mut counter = 0usize;
    let println = BuiltinCall { package: "io".to_string(), name: "println".to_string() };
    let args = [Operand::Const(ConstValue::String("hi".to_string()))];
    let call = BuiltinCallInstr { dst: None, ret_ty: &IrType::Void, builtin: &println, args: &args };
    assert_eq!(emit_builtin_call(&f, &names, call, &mut lines, &mut counter, &lits), Ok(()));
    assert_eq!(counter, 8);
    assert_eq!(
        lines,
        vec![
            "  %v0 = getelementptr inbounds [3 x i8], ptr @.str.0, i64 0, i64 0",
            "  %v1 = getelementptr inbounds [8 x i8], ptr @.str.1, i64 0, i64 0",
            "  %v2 = alloca ptr, i64 1, align 8",
            "  %v3 = getelementptr inbounds [3 x i8], ptr @.str.2, i64 0, i64 0",
            "  %v4 = call ptr @skp_rt_string_from_utf8(ptr %v3, i64 2)",
            "  %v5 = call ptr @skp_rt_value_from_string(ptr %v4)",
            "  %v6 = getelementptr inbounds ptr, ptr %v2, i64 0",
            "  store ptr %v5, ptr %v6, align 8",
            "  %v7 = call ptr @skp_rt_call_builtin(ptr %v0, ptr %v1, i64 1, ptr %v2)",
            ABORT,
            "  call void @skp_rt_value_free(ptr %v5)",
            "  call void @skp_rt_value_free(ptr %v7)",
        ]
    );
}

#[test]
fn indirect_calls_go_through_the_dispatcher() {
    let f = function(0, "main", vec![(0, fn_type(vec![IrType::Int], IrType::Int)), (1, IrType::Int)]);
    let names = ValueNames::new(&f);
    let lits = StringLiterals::new();
    let mut lines = Vec::new();
    let mut counter = 0usize;
    let callee = Operand::Temp(TempId(0));
    let r = emit_indirect_call(&f, &names, Some(TempId(1)), &IrType::Int, &callee, &[int_op(5)], &mut lines, &mut counter, &lits);
    assert_eq!(r, Ok(()));
    assert_eq!(
        lines,
        vec![
            "  %v0 = alloca ptr, i64 1, align 8",
            "  %v1 = call ptr @skp_rt_value_from_int(i64 5)",
            "  %v2 = getelementptr inbounds ptr, ptr %v0, i64 0",
            "  store ptr %v1, ptr %v2, align 8",
            "  %v3 = call ptr @__skp_rt_call_function_dispatch(i32 %t0, i64 1, ptr %v0)",
            ABORT,
            "  call void @skp_rt_value_free(ptr %v1)",
            "  %t1 = call i64 @skp_rt_value_to_int(ptr %v3)",
            ABORT,
            "  call void @skp_rt_value_free(ptr %v3)",
        ]
    );
}

#[test]
fn indirect_calls_check_the_callee_type() {
    let f = function(0, "main", vec![(0, fn_type(vec![IrType::Int], IrType::Int)), (1, IrType::Int), (2, IrType::Named("P\"t".to_string()))]);
    let names = ValueNames::new(&f);
    let lits = StringLiterals::new();
    let mut lines = Vec::new();
    let mut counter = 0usize;
    let r = emit_indirect_call(&f, &names, Some(TempId(1)), &IrType::Int, &Operand::Temp(TempId(1)), &[], &mut lines, &mut counter, &lits);
    assert_eq!(r, Err(CodegenError::InvalidIr("indirect callee must have function type, got Int".to_string())));
    let r = emit_indirect_call(&f, &names, Some(TempId(1)), &IrType::Int, &Operand::Temp(TempId(2)), &[], &mut lines, &mut counter, &lits);
    assert_eq!(r, Err(CodegenError::InvalidIr("indirect callee must have function type, got Named(\"P\\\"t\")".to_string())));
    let r = emit_indirect_call(&f, &names, Some(TempId(1)), &IrType::Bool, &Operand::Temp(TempId(0)), &[int_op(1)], &mut lines, &mut counter, &lits);
    assert_eq!(
        r,
        Err(CodegenError::InvalidIr("indirect call return type mismatch: callee returns Int, call expects Bool".to_string()))
    );
    let r = emit_indirect_call(&f, &names, Some(TempId(1)), &IrType::Int, &Operand::Temp(TempId(0)), &[], &mut lines, &mut counter, &lits);
    assert_eq!(r, Err(CodegenError::InvalidIr("indirect call arity mismatch: callee expects 1, got 0".to_string())));
    let unknown = Operand::Temp(TempId(9));
    let r = emit_indirect_call(&f, &names, None, &IrType::Void, &unknown, &[], &mut lines, &mut counter, &lits);
    assert_eq!(r, Err(CodegenError::InvalidIr("indirect callee must have function type, got Unknown".to_string())));
    assert!(lines.is_empty());
    assert_eq!(counter, 0);
}

#[test]
fn runtime_declarations_then_trampolines_then_the_dispatcher() {
    let program = IrProgram { functions: vec![function(0, "main", vec![])], globals: vec![], structs: vec![], module_init: None };
    let mut out = Vec::new();
    assert_eq!(emit_runtime_decls(&program, &mut out), Ok(()));
    assert_eq!(out.len(), 40 + 13 + 10);
    assert_eq!(out[0], "declare ptr @skp_rt_string_from_utf8(ptr, i64)");
    assert_eq!(
        out[40..].to_vec(),
        vec![
            "define internal ptr @__skp_rt_fnwrap_0(i64 %argc, ptr %argv) {",
            "entry:",
            "  %argc_ok_0 = icmp eq i64 %argc, 0",
            "  br i1 %argc_ok_0, label %argc_ok, label %argc_bad",
            "argc_bad:",
            "  %argc_err = call ptr @skp_rt_call_function(i32 0, i64 %argc, ptr %argv)",
            "  ret ptr %argc_err",
            "argc_ok:",
            "  call void @\"main\"()",
            "  %unit = call ptr @skp_rt_value_from_unit()",
            "  ret ptr %unit",
            "}",
            "",
            "define internal ptr @__skp_rt_call_function_dispatch(i32 %function, i64 %argc, ptr %argv) {",
            "entry:",
            "  switch i32 %function, label %default [\n    i32 0, label %case0\n  ]",
            "case0:",
            "  %call0 = call ptr @__skp_rt_fnwrap_0(i64 %argc, ptr %argv)",
            "  ret ptr %call0",
            "default:",
            "  %unit = call ptr @skp_rt_value_from_unit()",
            "  ret ptr %unit",
            "}",
        ]
    );
}

#[test]
fn trampolines_unbox_parameters_and_box_results() {
    let mut add = function(2, "add", vec![]);
    add.params = vec![
        IrParam { id: LocalId(0), name: "a".to_string(), ty: IrType::Int },
        IrParam { id: LocalId(1), name: "b".to_string(), ty: IrType::Bool },
    ];
    add.ret_ty = IrType::Int;
    let program = IrProgram { functions: vec![add], globals: vec![], structs: vec![], module_init: None };
    let mut out = Vec::new();
    assert_eq!(emit_runtime_decls(&program, &mut out), Ok(()));
    assert_eq!(
        out[48..61].to_vec(),
        vec![
            "  %argslot0 = getelementptr inbounds ptr, ptr %argv, i64 0",
            "  %argraw0 = load ptr, ptr %argslot0, align 8",
            "  %arg0 = call i64 @skp_rt_value_to_int(ptr %argraw0)",
            ABORT,
            "  %argslot1 = getelementptr inbounds ptr, ptr %argv, i64 1",
            "  %argraw1 = load ptr, ptr %argslot1, align 8",
            "  %arg1 = call i1 @skp_rt_value_to_bool(ptr %argraw1)",
            ABORT,
            "  %ret = call i64 @\"add\"(i64 %arg0, i1 %arg1)",
            "  %boxed = call ptr @skp_rt_value_from_int(i64 %ret)",
            "  ret ptr %boxed",
            "}",
            "",
        ]
    );
    let mut float = function(0, "f", vec![]);
    float.params = vec![IrParam { id: LocalId(0), name: "x".to_string(), ty: IrType::Float }];
    let program = IrProgram { functions: vec![float], globals: vec![], structs: vec![], module_init: None };
    let mut out = Vec::new();
    assert_eq!(
        emit_runtime_decls(&program, &mut out),
        Err(CodegenError::Unsupported("only Int/Bool/String/Void lowering is implemented"))
    );
    assert_eq!(out.len(), 40);
}

#[test]
fn a_program_without_functions_dispatches_to_unit() {
    let program = IrProgram { functions: vec![], globals: vec![], structs: vec![], module_init: None };
    let mut out = Vec::new();
    assert_eq!(emit_runtime_decls(&program, &mut out), Ok(()));
    assert_eq!(
        out[40..].to_vec(),
        vec![
            "define internal ptr @__skp_rt_call_function_dispatch(i32 %function, i64 %argc, ptr %argv) {",
            "entry:",
            "  %unit = call ptr @skp_rt_value_from_unit()",
            "  ret ptr %unit",
            "}",
        ]
    );
}

#[test]
fn pushing_with_unknown_element_type_boxes_as_the_inferred_type() {
    let f = function(0, "main", vec![(0, IrType::Vec { elem: Box::new(IrType::Bool) }), (1, IrType::Bool)]);
    let names = ValueNames::new(&f);
    let lits = StringLiterals::new();
    let push = |elem: &IrType| {
        let mut lines = Vec::new();
        let mut counter = 3usize;
        let r = emit_vec_push(&f, &names, elem, &Operand::Temp(TempId(0)), &Operand::Temp(TempId(1)), &mut lines, &mut counter, &lits);
        (r, lines, counter)
    };
    let unknown = push(&IrType::Unknown);
    assert_eq!(unknown, push(&IrType::Bool));
    assert_eq!(unknown.1[0], "  %v3 = call ptr @skp_rt_value_from_bool(i1 %t1)");
    assert_ne!(unknown, push(&IrType::Int));
}
