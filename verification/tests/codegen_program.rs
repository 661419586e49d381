use lib::codegen::llvm::calls::{emit_direct_call, ensure_supported, DirectCall};
use lib::codegen::llvm::compare::{emit_compare, infer_compare_operand_type};
use lib::codegen::llvm::context::LlvmEmitter;
use lib::codegen::llvm::instr_core::emit_core_instr;
use lib::codegen::llvm::instr_runtime::emit_runtime_instr;
use lib::codegen::llvm::strings::{collect_string_literals, encode_c_string, runtime_string_symbol, StringLiterals};
use lib::codegen::llvm::value::ValueNames;
use lib::codegen::CodegenError;
use lib::ir::{
    BasicBlock, BlockId, BuiltinCall, CmpOp, ConstValue, FunctionId, GlobalId, Instr, IrFunction, IrGlobal, IrParam,
    IrProgram, IrTemp, IrType, LocalId, Operand, TempId, Terminator,
};

fn function(id: usize, name: &str, temps: Vec<(usize, IrType)>) -> IrFunction {
    IrFunction {
        id: FunctionId(id),
        name: name.to_string(),
        params: vec![],
        locals: vec![],
        temps: temps.into_iter().map(|(id, ty)| IrTemp { id: TempId(id), ty }).collect(),
        ret_ty: IrType::Void,
        entry: BlockId(0),
        blocks: vec![],
    }
}

fn string(s: &str) -> Operand {
    Operand::Const(ConstValue::String(s.to_string()))
}

fn literal_program() -> IrProgram {
    let mut main = function(0, "main", vec![(0, IrType::String)]);
    main.blocks = vec![BasicBlock {
        id: BlockId(0),
        name: "entry".to_string(),
        instrs: vec![
            Instr::Const { dst: TempId(0), ty: IrType::String, value: ConstValue::String("a".to_string()) },
            Instr::CallBuiltin {
                dst: None,
                ret_ty: IrType::Void,
                builtin: BuiltinCall { package: "io".to_string(), name: "println".to_string() },
                args: vec![string("b")],
            },
            Instr::Logic { dst: TempId(0), op: lib::ir::LogicOp::And, left: string("ignored"), right: string("ignored") },
        ],
        terminator: Terminator::Return(Some(string("a"))),
    }];
    IrProgram { functions: vec![main], globals: vec![], structs: vec![], module_init: None }
}

#[test]
fn string_literals_are_numbered_in_order_of_first_occurrence() {
    let program = literal_program();
    let lits = collect_string_literals(&program);
    assert_eq!(lits.len(), 4);
    assert_eq!(lits.get("a"), Some("@.str.0"));
    assert_eq!(lits.get("b"), Some("@.str.1"));
    assert_eq!(lits.get("io"), Some("@.str.2"));
    assert_eq!(lits.get("println"), Some("@.str.3"));
    assert_eq!(lits.get("ignored"), None);
    let emitter = LlvmEmitter::new(&program);
    assert_eq!(emitter.string_literals().get("println"), Some("@.str.3"));
}

#[test]
fn an_empty_program_has_no_literals() {
    let program = IrProgram { functions: vec![], globals: vec![], structs: vec![], module_init: None };
    assert!(collect_string_literals(&program).is_empty());
    assert!(StringLiterals::new().is_empty());
}

#[test]
fn c_strings_escape_everything_but_plain_ascii() {
    assert_eq!(encode_c_string("hi"), "hi\\00");
    assert_eq!(encode_c_string("a\"b\\\n"), "a\\22b\\5C\\0A\\00");
    assert_eq!(encode_c_string("\u{e9}"), "\\C3\\A9\\00");
    assert_eq!(encode_c_string("\u{1F600}~"), "\\F0\\9F\\98\\80~\\00");
    assert_eq!(encode_c_string(""), "\\00");
}

#[test]
fn runtime_string_symbols_replace_the_first_literal_prefix() {
    assert_eq!(runtime_string_symbol("@.str.12"), "@.rtstr.12");
    assert_eq!(runtime_string_symbol("x@.str.1@.str.2"), "x@.rtstr.1@.str.2");
    assert_eq!(runtime_string_symbol("plain"), "plain");
    assert_eq!(runtime_string_symbol("@.st"), "@.st");
}

#[test]
fn comparisons_by_type() {
    let f = function(0, "main", vec![(0, IrType::Int), (1, IrType::Int), (2, IrType::Bool), (3, IrType::String), (4, IrType::Float)]);
    let names = ValueNames::new(&f);
    let lits = StringLiterals::new();
    let mut lines = Vec::new();
    let mut counter = 0usize;
    let t = |i: usize| Operand::Temp(TempId(i));
    assert_eq!(emit_compare(&names, &f, &lits, "%t2", CmpOp::Lt, &t(0), &t(1), &IrType::Int, &mut lines, &mut counter), Ok(()));
    assert_eq!(emit_compare(&names, &f, &lits, "%t2", CmpOp::Ge, &t(2), &t(2), &IrType::Bool, &mut lines, &mut counter), Ok(()));
    assert_eq!(emit_compare(&names, &f, &lits, "%t2", CmpOp::Ne, &t(3), &t(3), &IrType::String, &mut lines, &mut counter), Ok(()));
    assert_eq!(emit_compare(&names, &f, &lits, "%t2", CmpOp::Le, &t(4), &t(4), &IrType::Float, &mut lines, &mut counter), Ok(()));
    assert_eq!(
        lines,
        vec![
            "  %t2 = icmp slt i64 %t0, %t1",
            "  %t2 = icmp sge i1 %t2, %t2",
            "  %v0 = call i1 @skp_rt_string_eq(ptr %t3, ptr %t3)",
            "  %t2 = xor i1 %v0, true",
            "  %t2 = fcmp ole double %t4, %t4",
        ]
    );
    assert_eq!(
        emit_compare(&names, &f, &lits, "%t2", CmpOp::Lt, &t(3), &t(3), &IrType::String, &mut lines, &mut counter),
        Err(CodegenError::Unsupported("string ordering comparisons are not implemented in LLVM lowering"))
    );
    assert_eq!(lines.len(), 6);
    assert_eq!(counter, 2);
    assert_eq!(
        emit_compare(&names, &f, &lits, "%t2", CmpOp::Eq, &t(0), &t(0), &IrType::Unknown, &mut lines, &mut counter),
        Err(CodegenError::Unsupported("only Int/Bool/String/Void lowering is implemented"))
    );
}

#[test]
fn comparison_types_come_from_the_left_then_the_right_operand() {
    let f = function(0, "main", vec![(1, IrType::Bool)]);
    let program = IrProgram {
        functions: vec![],
        globals: vec![IrGlobal { id: GlobalId(0), name: "g".to_string(), ty: IrType::String, init: None }],
        structs: vec![],
        module_init: None,
    };
    let unit = Operand::Const(ConstValue::Unit);
    assert_eq!(infer_compare_operand_type(&program, &f, &Operand::Const(ConstValue::Int(1)), &unit), IrType::Int);
    assert_eq!(infer_compare_operand_type(&program, &f, &unit, &Operand::Temp(TempId(1))), IrType::Bool);
    assert_eq!(infer_compare_operand_type(&program, &f, &Operand::Global(GlobalId(0)), &unit), IrType::String);
    assert_eq!(infer_compare_operand_type(&program, &f, &Operand::Temp(TempId(7)), &unit), IrType::Int);
    assert_eq!(infer_compare_operand_type(&program, &f, &Operand::Const(ConstValue::Float(0)), &unit), IrType::Float);
}

fn callee_program() -> IrProgram {
    let mut add = function(1, "add", vec![]);
    add.params = vec![
        IrParam { id: LocalId(0), name: "a".to_string(), ty: IrType::Int },
        IrParam { id: LocalId(1), name: "b".to_string(), ty: IrType::Int },
    ];
    add.ret_ty = IrType::Int;
    let say = function(2, "say", vec![]);
    IrProgram { functions: vec![add, say], globals: vec![], structs: vec![], module_init: None }
}

#[test]
fn direct_calls_name_the_callee_symbol() {
    let program = callee_program();
    let f = function(0, "main", vec![(0, IrType::Int), (2, IrType::Int)]);
    let names = ValueNames::new(&f);
    let lits = StringLiterals::new();
    let mut lines = Vec::new();
    let mut counter = 0usize;
    let args = [Operand::Temp(TempId(0)), Operand::Const(ConstValue::Int(3))];
    let call = DirectCall { dst: Some(TempId(2)), ret_ty: &IrType::Int, function: FunctionId(1), args: &args };
    assert_eq!(emit_direct_call(&program, &f, &names, call, &mut lines, &mut counter, &lits), Ok(()));
    let call = DirectCall { dst: None, ret_ty: &IrType::Void, function: FunctionId(2), args: &[] };
    assert_eq!(emit_direct_call(&program, &f, &names, call, &mut lines, &mut counter, &lits), Ok(()));
    assert_eq!(lines, vec!["  %t2 = call i64 @\"add\"(i64 %t0, i64 3)", "  call void @\"say\"()"]);
    let call = DirectCall { dst: None, ret_ty: &IrType::Void, function: FunctionId(9), args: &[] };
    assert_eq!(
        emit_direct_call(&program, &f, &names, call, &mut lines, &mut counter, &lits),
        Err(CodegenError::InvalidIr("unknown callee FunctionId(9)".to_string()))
    );
    let call = DirectCall { dst: Some(TempId(2)), ret_ty: &IrType::Int, function: FunctionId(1), args: &[] };
    assert_eq!(
        emit_direct_call(&program, &f, &names, call, &mut lines, &mut counter, &lits),
        Err(CodegenError::InvalidIr("call arity mismatch for add".to_string()))
    );
    let call = DirectCall { dst: None, ret_ty: &IrType::Int, function: FunctionId(1), args: &args };
    assert_eq!(
        emit_direct_call(&program, &f, &names, call, &mut lines, &mut counter, &lits),
        Err(CodegenError::InvalidIr("non-void direct call must write to a destination temp".to_string()))
    );
    assert_eq!(lines.len(), 2);
    assert_eq!(ensure_supported(&Instr::VecNew { dst: TempId(0), elem_ty: IrType::Int }), Ok(()));
}

#[test]
fn core_instructions_load_and_store_slots() {
    let program = callee_program();
    let f = function(0, "main", vec![(0, IrType::Int)]);
    let names = ValueNames::new(&f);
    let lits = StringLiterals::new();
    let mut lines = Vec::new();
    let mut counter = 0usize;
    let load = Instr::LoadGlobal { dst: TempId(0), ty: IrType::Int, global: GlobalId(2) };
    assert_eq!(emit_core_instr(&program, &f, &names, &load, &mut lines, &mut counter, &lits), Ok(true));
    let store = Instr::StoreLocal { local: LocalId(1), ty: IrType::Int, value: Operand::Temp(TempId(0)) };
    assert_eq!(emit_core_instr(&program, &f, &names, &store, &mut lines, &mut counter, &lits), Ok(true));
    let other = Instr::Const { dst: TempId(0), ty: IrType::Int, value: ConstValue::Int(1) };
    assert_eq!(emit_core_instr(&program, &f, &names, &other, &mut lines, &mut counter, &lits), Ok(false));
    assert_eq!(lines, vec!["  %t0 = load i64, ptr @g2, align 8", "  store i64 %t0, ptr %local1, align 8"]);
    let bad = Instr::LoadLocal { dst: TempId(0), ty: IrType::Float, local: LocalId(0) };
    assert_eq!(
        emit_core_instr(&program, &f, &names, &bad, &mut lines, &mut counter, &lits),
        Err(CodegenError::Unsupported("only Int/Bool/String/Void lowering is implemented"))
    );
}

#[test]
fn runtime_instructions_are_recognised() {
    let program = callee_program();
    let f = function(0, "main", vec![(0, IrType::Int)]);
    let names = ValueNames::new(&f);
    let lits = StringLiterals::new();
    let mut lines = Vec::new();
    let mut counter = 0usize;
    let closure = Instr::MakeClosure { dst: TempId(0), function: FunctionId(4) };
    assert_eq!(emit_runtime_instr(&program, &f, &names, &closure, &mut lines, &mut counter, &lits), Ok(true));
    let new_vec = Instr::VecNew { dst: TempId(0), elem_ty: IrType::Int };
    assert_eq!(emit_runtime_instr(&program, &f, &names, &new_vec, &mut lines, &mut counter, &lits), Ok(true));
    let load = Instr::LoadLocal { dst: TempId(0), ty: IrType::Int, local: LocalId(0) };
    assert_eq!(emit_runtime_instr(&program, &f, &names, &load, &mut lines, &mut counter, &lits), Ok(false));
    assert_eq!(lines, vec!["  %t0 = add i32 0, 4", "  %t0 = call ptr @skp_rt_vec_new()"]);
}
