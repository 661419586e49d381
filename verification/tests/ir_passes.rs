use lib::ir::opt::{cfg_simplify, const_fold, dce, licm, optimize_program, strength_reduce};
use lib::ir::verify::{IrVerifier, IrVerifyError};
use lib::ir::{
    BasicBlock, BinaryOp, BlockId, BranchTerminator, CmpOp, ConstValue, FieldRef, FunctionId, GlobalId, Instr,
    IrFunction, IrGlobal, IrParam, IrProgram, IrStruct, IrTemp, IrType, LocalId, ModuleInit, Operand, StructField,
    StructId, TempId, Terminator,
};

fn block(id: usize, name: &str, instrs: Vec<Instr>, terminator: Terminator) -> BasicBlock {
    BasicBlock { id: BlockId(id), name: name.to_string(), instrs, terminator }
}

fn function(blocks: Vec<BasicBlock>, temps: usize) -> IrFunction {
    IrFunction {
        id: FunctionId(0),
        name: "main".to_string(),
        params: vec![],
        locals: vec![],
        temps: (0..temps).map(|i| IrTemp { id: TempId(i), ty: IrType::Int }).collect(),
        ret_ty: IrType::Int,
        entry: BlockId(0),
        blocks,
    }
}

fn program(functions: Vec<IrFunction>) -> IrProgram {
    IrProgram { functions, globals: vec![], structs: vec![], module_init: None }
}

fn konst(dst: usize, v: i64) -> Instr {
    Instr::Const { dst: TempId(dst), ty: IrType::Int, value: ConstValue::Int(v) }
}

fn temp(i: usize) -> Operand {
    Operand::Temp(TempId(i))
}

fn add(dst: usize, left: Operand, right: Operand) -> Instr {
    Instr::Binary { dst: TempId(dst), ty: IrType::Int, op: BinaryOp::Add, left, right }
}

#[test]
fn a_well_formed_program_verifies() {
    let p = program(vec![function(vec![block(0, "entry", vec![konst(0, 1)], Terminator::Return(Some(temp(0))))], 1)]);
    assert_eq!(IrVerifier::verify_program(&p), Ok(()));
    assert_eq!(IrVerifier::verify_function(&p, &p.functions[0]), Ok(()));
}

#[test]
fn verification_failures_name_the_function_and_block() {
    let main = || "main".to_string();
    let mut missing_entry = function(vec![block(0, "entry", vec![], Terminator::Return(None))], 0);
    missing_entry.entry = BlockId(5);
    assert_eq!(
        IrVerifier::verify_program(&program(vec![missing_entry])),
        Err(IrVerifyError::MissingEntryBlock { function: main() })
    );
    let unknown_temp = function(vec![block(0, "entry", vec![], Terminator::Return(Some(temp(3))))], 1);
    assert_eq!(IrVerifier::verify_program(&program(vec![unknown_temp])), Err(IrVerifyError::UnknownTemp { function: main() }));
    let unterminated = function(vec![block(0, "entry", vec![konst(0, 1)], Terminator::Unreachable)], 1);
    assert_eq!(
        IrVerifier::verify_program(&program(vec![unterminated])),
        Err(IrVerifyError::MissingTerminator { function: main(), block: "entry".to_string() })
    );
    let bad_jump = function(vec![block(0, "entry", vec![], Terminator::Jump(BlockId(4)))], 0);
    assert_eq!(
        IrVerifier::verify_program(&program(vec![bad_jump])),
        Err(IrVerifyError::UnknownBlockTarget { function: main(), block: "entry".to_string() })
    );
    let store_local = Instr::StoreLocal { local: LocalId(2), ty: IrType::Int, value: Operand::Const(ConstValue::Int(1)) };
    let unknown_local = function(vec![block(0, "entry", vec![Instr::LoadLocal { dst: TempId(0), ty: IrType::Int, local: LocalId(2) }, store_local], Terminator::Return(Some(Operand::Local(LocalId(2)))))], 1);
    assert_eq!(IrVerifier::verify_program(&program(vec![unknown_local])), Err(IrVerifyError::UnknownLocal { function: main() }));
    let unknown_global = function(vec![block(0, "entry", vec![], Terminator::Return(Some(Operand::Global(GlobalId(0)))))], 0);
    assert_eq!(IrVerifier::verify_program(&program(vec![unknown_global])), Err(IrVerifyError::UnknownGlobal));
    let mut with_global = program(vec![function(vec![block(0, "entry", vec![], Terminator::Return(Some(Operand::Global(GlobalId(0)))))], 0)]);
    with_global.globals.push(IrGlobal { id: GlobalId(0), name: "g".to_string(), ty: IrType::Int, init: None });
    assert_eq!(IrVerifier::verify_program(&with_global), Ok(()));
    with_global.module_init = Some(ModuleInit { function: FunctionId(7) });
    assert_eq!(IrVerifier::verify_program(&with_global), Err(IrVerifyError::UnknownModuleInitFunction));
}

#[test]
fn constants_fold_through_arithmetic_comparisons_and_branches() {
    let cmp = Instr::Compare { dst: TempId(3), op: CmpOp::Lt, left: temp(2), right: Operand::Const(ConstValue::Int(10)) };
    let branch = Terminator::Branch(BranchTerminator { cond: temp(3), then_block: BlockId(1), else_block: BlockId(2) });
    let mut p = program(vec![function(
        vec![
            block(0, "entry", vec![konst(0, 2), konst(1, 3), add(2, temp(0), temp(1)), cmp], branch),
            block(1, "then", vec![], Terminator::Return(Some(temp(2)))),
            block(2, "else", vec![], Terminator::Return(None)),
        ],
        4,
    )]);
    assert!(const_fold::run(&mut p));
    let entry = &p.functions[0].blocks[0];
    assert_eq!(entry.instrs[2], konst(2, 5));
    assert_eq!(entry.instrs[3], Instr::Const { dst: TempId(3), ty: IrType::Bool, value: ConstValue::Bool(true) });
    assert_eq!(entry.terminator, Terminator::Jump(BlockId(1)));
    assert!(!const_fold::run(&mut p));
}

#[test]
fn overflowing_and_dividing_by_zero_are_not_folded() {
    let div = Instr::Binary { dst: TempId(2), ty: IrType::Int, op: BinaryOp::Div, left: temp(0), right: Operand::Const(ConstValue::Int(0)) };
    let mut p = program(vec![function(
        vec![block(0, "entry", vec![konst(0, i64::MAX), add(1, temp(0), Operand::Const(ConstValue::Int(1))), div], Terminator::Return(None))],
        3,
    )]);
    assert!(!const_fold::run(&mut p));
}

#[test]
fn unused_pure_instructions_are_removed() {
    let mut p = program(vec![function(vec![block(0, "entry", vec![konst(0, 1), konst(1, 2)], Terminator::Return(Some(temp(1))))], 2)]);
    assert!(dce::run(&mut p));
    assert_eq!(p.functions[0].blocks[0].instrs, vec![konst(1, 2)]);
    assert!(!dce::run(&mut p));
}

#[test]
fn adding_zero_becomes_a_copy() {
    let mut p = program(vec![function(vec![block(0, "entry", vec![add(1, temp(0), Operand::Const(ConstValue::Int(0)))], Terminator::Return(Some(temp(1))))], 2)]);
    assert!(strength_reduce::run(&mut p));
    assert_eq!(p.functions[0].blocks[0].instrs[0], Instr::Copy { dst: TempId(1), ty: IrType::Int, src: temp(0) });
}

#[test]
fn jumps_through_empty_blocks_are_redirected_and_the_empty_blocks_removed() {
    let mut p = program(vec![function(
        vec![
            block(0, "entry", vec![], Terminator::Jump(BlockId(1))),
            block(1, "hop", vec![], Terminator::Jump(BlockId(2))),
            block(2, "exit", vec![], Terminator::Return(None)),
        ],
        0,
    )]);
    assert!(cfg_simplify::run(&mut p));
    let blocks = &p.functions[0].blocks;
    assert_eq!(blocks.len(), 2);
    assert_eq!(blocks[0].terminator, Terminator::Jump(BlockId(2)));
    assert_eq!(blocks[1].id, BlockId(2));
}

#[test]
fn optimizing_folds_then_removes_dead_constants() {
    let mut p = program(vec![function(vec![block(0, "entry", vec![konst(0, 2), konst(1, 3), add(2, temp(0), temp(1))], Terminator::Return(Some(temp(2))))], 3)]);
    p.globals.push(IrGlobal { id: GlobalId(0), name: "g".to_string(), ty: IrType::Int, init: Some(ConstValue::Int(1)) });
    optimize_program(&mut p);
    assert_eq!(p.functions[0].blocks[0].instrs, vec![konst(2, 5)]);
    assert_eq!(p.globals.len(), 1);
    assert_eq!(p.functions[0].name, "main");
    assert_eq!(IrVerifier::verify_program(&p), Ok(()));
}

#[test]
fn duplicate_ids_are_reported_before_any_block_is_checked() {
    let main = || "main".to_string();
    let mut f = function(vec![block(0, "entry", vec![], Terminator::Return(None))], 2);
    f.temps[1].id = TempId(0);
    assert_eq!(IrVerifier::verify_program(&program(vec![f])), Err(IrVerifyError::DuplicateTempId { function: main() }));
    let twice = function(
        vec![block(0, "entry", vec![], Terminator::Jump(BlockId(0))), block(0, "again", vec![], Terminator::Return(None))],
        0,
    );
    assert_eq!(IrVerifier::verify_program(&program(vec![twice])), Err(IrVerifyError::DuplicateBlockId { function: main() }));
    let mut params = function(vec![block(0, "entry", vec![], Terminator::Return(None))], 0);
    params.params = vec![
        IrParam { id: LocalId(1), name: "a".to_string(), ty: IrType::Int },
        IrParam { id: LocalId(1), name: "b".to_string(), ty: IrType::Int },
    ];
    assert_eq!(IrVerifier::verify_program(&program(vec![params])), Err(IrVerifyError::DuplicateParamId { function: main() }));
}

#[test]
fn returns_must_agree_with_the_return_type() {
    let main = || "main".to_string();
    let nothing = function(vec![block(0, "entry", vec![], Terminator::Return(None))], 0);
    assert_eq!(IrVerifier::verify_program(&program(vec![nothing])), Err(IrVerifyError::ReturnTypeMismatch { function: main() }));
    let boolean = function(vec![block(0, "entry", vec![], Terminator::Return(Some(Operand::Const(ConstValue::Bool(true)))))], 0);
    assert_eq!(IrVerifier::verify_program(&program(vec![boolean])), Err(IrVerifyError::ReturnTypeMismatch { function: main() }));
    let mut void = function(vec![block(0, "entry", vec![], Terminator::Return(None))], 0);
    void.ret_ty = IrType::Void;
    assert_eq!(IrVerifier::verify_program(&program(vec![void])), Ok(()));
    let mut unknown = function(vec![block(0, "entry", vec![], Terminator::Return(Some(temp(0))))], 1);
    unknown.temps[0].ty = IrType::Unknown;
    assert_eq!(IrVerifier::verify_program(&program(vec![unknown])), Ok(()));
}

#[test]
fn a_branch_condition_must_be_declared_bool() {
    let branch = Terminator::Branch(BranchTerminator { cond: temp(0), then_block: BlockId(0), else_block: BlockId(0) });
    let f = function(vec![block(0, "entry", vec![konst(0, 1)], branch)], 1);
    assert_eq!(
        IrVerifier::verify_program(&program(vec![f])),
        Err(IrVerifyError::OperandTypeMismatch { function: "main".to_string() })
    );
}

#[test]
fn instructions_are_checked_against_declared_types_and_targets() {
    let main = || "main".to_string();
    let mut p = program(vec![function(vec![block(0, "entry", vec![], Terminator::Return(Some(temp(0))))], 2)]);
    p.functions[0].temps[1].ty = IrType::Bool;
    p.structs.push(IrStruct {
        id: StructId(0),
        name: "Point".to_string(),
        fields: vec![StructField { name: "x".to_string(), ty: IrType::Int }],
    });
    let ok_copy = Instr::Copy { dst: TempId(0), ty: IrType::Int, src: Operand::Const(ConstValue::Int(4)) };
    assert_eq!(IrVerifier::verify_instr(&p, &p.functions[0], &ok_copy), Ok(()));
    let bad_copy = Instr::Copy { dst: TempId(0), ty: IrType::Int, src: temp(1) };
    assert_eq!(IrVerifier::verify_instr(&p, &p.functions[0], &bad_copy), Err(IrVerifyError::OperandTypeMismatch { function: main() }));
    let unknown_target = Instr::CallDirect { dst: None, ret_ty: IrType::Int, function: FunctionId(9), args: vec![] };
    assert_eq!(
        IrVerifier::verify_instr(&p, &p.functions[0], &unknown_target),
        Err(IrVerifyError::UnknownFunctionTarget { function: main() })
    );
    let wrong_arity = Instr::CallDirect { dst: Some(TempId(0)), ret_ty: IrType::Int, function: FunctionId(0), args: vec![temp(0)] };
    assert_eq!(IrVerifier::verify_instr(&p, &p.functions[0], &wrong_arity), Err(IrVerifyError::BadCallSignature { function: main() }));
    let right_call = Instr::CallDirect { dst: Some(TempId(0)), ret_ty: IrType::Int, function: FunctionId(0), args: vec![] };
    assert_eq!(IrVerifier::verify_instr(&p, &p.functions[0], &right_call), Ok(()));
    let unknown_struct = Instr::MakeStruct { dst: TempId(0), struct_id: StructId(3), fields: vec![] };
    assert_eq!(IrVerifier::verify_instr(&p, &p.functions[0], &unknown_struct), Err(IrVerifyError::UnknownStruct { function: main() }));
    p.functions[0].temps[1].ty = IrType::Named("Point".to_string());
    let field = |name: &str| FieldRef { index: 0, name: name.to_string() };
    let known_field = Instr::StructGet { dst: TempId(0), ty: IrType::Int, base: temp(1), field: field("x") };
    assert_eq!(IrVerifier::verify_instr(&p, &p.functions[0], &known_field), Ok(()));
    let unknown_field = Instr::StructGet { dst: TempId(0), ty: IrType::Int, base: temp(1), field: field("y") };
    assert_eq!(
        IrVerifier::verify_instr(&p, &p.functions[0], &unknown_field),
        Err(IrVerifyError::UnknownField { function: main(), field: "y".to_string() })
    );
    let bad_len = Instr::VecLen { dst: TempId(0), vec: temp(1) };
    assert_eq!(IrVerifier::verify_instr(&p, &p.functions[0], &bad_len), Err(IrVerifyError::OperandTypeMismatch { function: main() }));
}

#[test]
fn control_flow_simplification_keeps_targets_valid_and_the_entry() {
    let branch = Terminator::Branch(BranchTerminator { cond: temp(0), then_block: BlockId(1), else_block: BlockId(3) });
    let mut f = function(
        vec![
            block(0, "entry", vec![Instr::Const { dst: TempId(0), ty: IrType::Bool, value: ConstValue::Bool(true) }], branch),
            block(1, "hop", vec![], Terminator::Jump(BlockId(2))),
            block(2, "hop_again", vec![], Terminator::Jump(BlockId(3))),
            block(3, "exit", vec![], Terminator::Return(None)),
            block(4, "dead", vec![konst(0, 1)], Terminator::Jump(BlockId(1))),
        ],
        1,
    );
    f.ret_ty = IrType::Void;
    f.temps[0].ty = IrType::Bool;
    let mut p = program(vec![f]);
    assert_eq!(IrVerifier::verify_program(&p), Ok(()));
    assert!(cfg_simplify::run(&mut p));
    let blocks = &p.functions[0].blocks;
    assert_eq!(p.functions[0].entry, BlockId(0));
    assert_eq!(blocks.iter().map(|b| b.id).collect::<Vec<_>>(), vec![BlockId(0), BlockId(3)]);
    assert_eq!(
        blocks[0].terminator,
        Terminator::Branch(BranchTerminator { cond: temp(0), then_block: BlockId(3), else_block: BlockId(3) })
    );
    assert_eq!(IrVerifier::verify_program(&p), Ok(()));
}

#[test]
fn an_optimized_program_is_a_fixed_point_of_every_pass() {
    let make = || {
        let branch = Terminator::Branch(BranchTerminator { cond: temp(3), then_block: BlockId(1), else_block: BlockId(2) });
        let cmp = Instr::Compare { dst: TempId(3), op: CmpOp::Lt, left: temp(2), right: Operand::Const(ConstValue::Int(10)) };
        program(vec![function(
            vec![
                block(0, "entry", vec![konst(0, 2), konst(1, 3), add(2, temp(0), temp(1)), cmp], branch),
                block(1, "then", vec![], Terminator::Jump(BlockId(3))),
                block(2, "else", vec![], Terminator::Return(Some(temp(0)))),
                block(3, "exit", vec![add(4, temp(2), Operand::Const(ConstValue::Int(0)))], Terminator::Return(Some(temp(4)))),
            ],
            5,
        )])
    };
    let optimized = {
        let mut q = make();
        optimize_program(&mut q);
        q
    };
    let mut p = make();
    optimize_program(&mut p);
    assert_eq!(p, optimized);
    assert!(!const_fold::run(&mut p));
    assert!(!dce::run(&mut p));
    assert!(!cfg_simplify::run(&mut p));
    assert!(!licm::run(&mut p));
    assert!(!strength_reduce::run(&mut p));
    assert_eq!(p, optimized);
    optimize_program(&mut p);
    assert_eq!(p, optimized);
}
