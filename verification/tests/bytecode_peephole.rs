use lib::bytecode::peephole::{
    peephole_optimize_chunk, peephole_optimize_module, rewrite_direct_calls_to_indexes,
    rewrite_function_values_to_indexes, rewrite_trivial_direct_calls,
};
use lib::bytecode::{BytecodeModule, FunctionChunk, Instr, StructShape, Value};

fn chunk(name: &str, code: Vec<Instr>, params: usize) -> FunctionChunk {
    FunctionChunk { name: name.to_string(), code, locals_count: params, param_count: params }
}

fn module(functions: Vec<FunctionChunk>) -> BytecodeModule {
    BytecodeModule { functions, method_names: vec![], struct_shapes: vec![] }
}

#[test]
fn direct_calls_take_the_sorted_place_of_their_callee() {
    let mut m = module(vec![
        chunk(
            "main",
            vec![
                Instr::Call { name: "zeta".to_string(), argc: 0 },
                Instr::Call { name: "alpha".to_string(), argc: 2 },
                Instr::Call { name: "missing".to_string(), argc: 1 },
                Instr::Return,
            ],
            0,
        ),
        chunk("zeta", vec![Instr::Return], 0),
        chunk("alpha", vec![Instr::Return], 2),
    ]);
    rewrite_direct_calls_to_indexes(&mut m);
    assert_eq!(
        m.functions[0].code,
        vec![
            Instr::CallIdx { idx: 2, argc: 0 },
            Instr::CallIdx { idx: 0, argc: 2 },
            Instr::Call { name: "missing".to_string(), argc: 1 },
            Instr::Return,
        ]
    );
    assert_eq!(m.functions[1].code, vec![Instr::Return]);
}

#[test]
fn calls_of_trivial_functions_are_fused() {
    let inc = chunk("inc", vec![Instr::LoadLocal(0), Instr::LoadConst(Value::Int(5)), Instr::Add, Instr::Return], 1);
    let dec = chunk("dec", vec![Instr::LoadConst(Value::Int(-1)), Instr::LoadLocal(0), Instr::Add, Instr::Return], 1);
    let field = chunk(
        "field",
        vec![Instr::LoadLocal(0), Instr::StructGetSlot(3), Instr::LoadLocal(1), Instr::Add, Instr::Return],
        2,
    );
    let slot = chunk(
        "slot",
        vec![Instr::StructGetLocalSlot { slot: 0, field_slot: 4 }, Instr::LoadLocal(1), Instr::Add, Instr::Return],
        2,
    );
    let main = chunk(
        "main",
        vec![
            Instr::CallIdx { idx: 2, argc: 1 },
            Instr::CallIdx { idx: 0, argc: 1 },
            Instr::CallIdx { idx: 1, argc: 2 },
            Instr::CallIdx { idx: 4, argc: 2 },
            Instr::CallIdx { idx: 2, argc: 2 },
            Instr::CallIdx { idx: 3, argc: 0 },
        ],
        0,
    );
    let mut m = module(vec![main, inc, dec, field, slot]);
    rewrite_trivial_direct_calls(&mut m);
    assert_eq!(
        m.functions[0].code,
        vec![
            Instr::CallIdxAddConst(5),
            Instr::CallIdxAddConst(-1),
            Instr::CallIdxStructFieldAdd(3),
            Instr::CallIdxStructFieldAdd(4),
            Instr::CallIdx { idx: 2, argc: 2 },
            Instr::CallIdx { idx: 3, argc: 0 },
        ]
    );
}

#[test]
fn function_values_become_indexes_inside_constants() {
    let shape = StructShape { name: "Pair".to_string(), field_names: vec!["f".to_string()] };
    let constant = Value::Array(vec![
        Value::Function("b".to_string()),
        Value::Function("nope".to_string()),
        Value::Struct { shape, fields: vec![Value::Function("a".to_string())] },
    ]);
    let mut m = module(vec![chunk("b", vec![Instr::LoadConst(constant), Instr::Return], 0), chunk("a", vec![], 0)]);
    rewrite_function_values_to_indexes(&mut m);
    let expected = Value::Array(vec![
        Value::FunctionIdx(1),
        Value::Function("nope".to_string()),
        Value::Struct {
            shape: StructShape { name: "Pair".to_string(), field_names: vec!["f".to_string()] },
            fields: vec![Value::FunctionIdx(0)],
        },
    ]);
    assert_eq!(m.functions[0].code, vec![Instr::LoadConst(expected), Instr::Return]);
}

#[test]
fn jumps_to_the_next_instruction_are_dropped_and_targets_moved() {
    let mut c = chunk(
        "f",
        vec![Instr::Jump(1), Instr::LoadLocal(0), Instr::JumpIfFalse(4), Instr::Jump(4), Instr::Return],
        1,
    );
    peephole_optimize_chunk(&mut c);
    assert_eq!(c.code, vec![Instr::LoadLocal(0), Instr::JumpIfFalse(2), Instr::Return]);
    assert_eq!(c.name, "f");
}

#[test]
fn code_without_jumps_to_the_next_instruction_is_left_alone() {
    let code = vec![Instr::Jump(2), Instr::Pop, Instr::JumpIfTrue(99)];
    let mut c = chunk("g", code, 0);
    peephole_optimize_chunk(&mut c);
    assert_eq!(c.code, vec![Instr::Jump(2), Instr::Pop, Instr::JumpIfTrue(99)]);
}

#[test]
fn module_pass_runs_on_every_function() {
    let mut m = module(vec![
        chunk("f", vec![Instr::Jump(1), Instr::Return], 0),
        chunk("g", vec![Instr::JumpIfTrue(2), Instr::Jump(2), Instr::Return], 0),
    ]);
    peephole_optimize_module(&mut m);
    assert_eq!(m.functions[0].code, vec![Instr::Return]);
    assert_eq!(m.functions[1].code, vec![Instr::JumpIfTrue(1), Instr::Return]);
}
