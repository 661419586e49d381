use lib::bytecode::codec::encode_instr;
use lib::bytecode::{BytecodeModule, FunctionChunk, Instr, IntLocalConstOp, StructShape, Value};

fn chunk(name: &str, code: Vec<Instr>, locals: usize, params: usize) -> FunctionChunk {
    FunctionChunk { name: name.to_string(), code, locals_count: locals, param_count: params }
}

fn header(funcs: u32) -> Vec<u8> {
    let mut out = b"SKBC".to_vec();
    out.extend_from_slice(&4u32.to_le_bytes());
    out.extend_from_slice(&funcs.to_le_bytes());
    out
}

fn sample_module() -> BytecodeModule {
    let point = StructShape { name: "Point".to_string(), field_names: vec!["x".to_string(), "y".to_string()] };
    let nested = Value::Array(vec![
        Value::Int(-7),
        Value::Float(2.5f64.to_bits()),
        Value::Bool(true),
        Value::String("héllo".to_string()),
        Value::Array(vec![Value::Unit, Value::FunctionIdx(3)]),
        Value::Function("main".to_string()),
        Value::Struct {
            shape: StructShape { name: "Point".to_string(), field_names: vec!["x".to_string(), "y".to_string()] },
            fields: vec![Value::Int(1), Value::Int(2)],
        },
    ]);
    let main = chunk(
        "main",
        vec![
            Instr::LoadConst(nested),
            Instr::StoreLocal(0),
            Instr::IntLocalConstOp { slot: 1, op: IntLocalConstOp::Mod, rhs: 10 },
            Instr::IntLocalLocalOp { lhs: 0, rhs: 1, op: IntLocalConstOp::Sub },
            Instr::IntStackOpToLocal { slot: 2, op: IntLocalConstOp::Div },
            Instr::JumpIfLocalLtConst { slot: 0, rhs: -3, target: 9 },
            Instr::CallBuiltin { package: "str".to_string(), name: "len".to_string(), argc: 1 },
            Instr::CallBuiltinId { id: 513, argc: 2 },
            Instr::StrSliceLocalConst { slot: 4, start: 1, end: 3 },
            Instr::MakeStruct { name: "Point".to_string(), fields: vec!["x".to_string(), "y".to_string()] },
            Instr::StructSetPath(vec!["a".to_string(), "b".to_string()]),
            Instr::StructSetPathSlots(vec![0, 2, 1]),
            Instr::StructGetLocalSlot { slot: 3, field_slot: 1 },
            Instr::Return,
        ],
        5,
        0,
    );
    let helper = chunk("helper", vec![Instr::LoadLocal(0), Instr::Add, Instr::Return], 1, 1);
    BytecodeModule {
        functions: vec![main, helper],
        method_names: vec!["area".to_string(), "len".to_string()],
        struct_shapes: vec![point],
    }
}

#[test]
fn empty_module_bytes_are_the_header_and_zero_counts() {
    let bytes = BytecodeModule { functions: vec![], method_names: vec![], struct_shapes: vec![] }.to_bytes();
    let mut expected = header(0);
    expected.extend_from_slice(&0u32.to_le_bytes());
    expected.extend_from_slice(&0u32.to_le_bytes());
    assert_eq!(bytes, expected);
}

#[test]
fn module_round_trips_with_functions_in_name_order() {
    let module = sample_module();
    let decoded = BytecodeModule::from_bytes(&module.to_bytes()).expect("decodes");
    let names: Vec<&str> = decoded.functions.iter().map(|f| f.name.as_str()).collect();
    assert_eq!(names, vec!["helper", "main"]);
    assert_eq!(decoded.functions[0], module.functions[1]);
    assert_eq!(decoded.functions[1], module.functions[0]);
    assert_eq!(decoded.method_names, module.method_names);
    assert_eq!(decoded.struct_shapes, module.struct_shapes);
}

#[test]
fn instructions_encode_opcode_then_little_endian_operands() {
    let mut out = Vec::new();
    encode_instr(&Instr::LoadLocal(5), &mut out);
    assert_eq!(out, vec![1, 5, 0, 0, 0]);
    let mut out = Vec::new();
    encode_instr(&Instr::IntLocalConstOp { slot: 1, op: IntLocalConstOp::Mul, rhs: -1 }, &mut out);
    assert_eq!(out, vec![61, 1, 0, 0, 0, 2, 255, 255, 255, 255, 255, 255, 255, 255]);
    let mut out = vec![9];
    encode_instr(&Instr::Call { name: "f".to_string(), argc: 258 }, &mut out);
    assert_eq!(out, vec![9, 24, 1, 0, 0, 0, b'f', 2, 1, 0, 0]);
    let mut out = Vec::new();
    encode_instr(&Instr::LoadConst(Value::Bool(true)), &mut out);
    assert_eq!(out, vec![0, 2, 1]);
}

#[test]
fn bad_magic_is_rejected() {
    let mut bytes = sample_module().to_bytes();
    bytes[0] = b'X';
    assert_eq!(BytecodeModule::from_bytes(&bytes), Err("Invalid bytecode magic header".to_string()));
}

#[test]
fn short_input_is_an_unexpected_eof() {
    assert_eq!(BytecodeModule::from_bytes(b"SK"), Err("Unexpected EOF while decoding bytecode".to_string()));
    let bytes = sample_module().to_bytes();
    assert_eq!(
        BytecodeModule::from_bytes(&bytes[..bytes.len() - 1]),
        Err("Unexpected EOF while decoding bytecode".to_string())
    );
}

#[test]
fn other_versions_are_refused() {
    let mut bytes = b"SKBC".to_vec();
    bytes.extend_from_slice(&5u32.to_le_bytes());
    assert_eq!(BytecodeModule::from_bytes(&bytes), Err("Unsupported bytecode version 5".to_string()));
}

fn one_function_module(code_bytes: &[u8], code_len: u32) -> Vec<u8> {
    let mut bytes = header(1);
    bytes.extend_from_slice(&0u32.to_le_bytes());
    bytes.extend_from_slice(&0u32.to_le_bytes());
    bytes.extend_from_slice(&1u32.to_le_bytes());
    bytes.push(b'f');
    bytes.extend_from_slice(&0u32.to_le_bytes());
    bytes.extend_from_slice(&0u32.to_le_bytes());
    bytes.extend_from_slice(&code_len.to_le_bytes());
    bytes.extend_from_slice(code_bytes);
    bytes
}

#[test]
fn unknown_tags_are_named_in_the_error() {
    assert_eq!(
        BytecodeModule::from_bytes(&one_function_module(&[200], 1)),
        Err("Unknown instruction tag 200".to_string())
    );
    assert_eq!(
        BytecodeModule::from_bytes(&one_function_module(&[0, 9], 1)),
        Err("Unknown value tag 9".to_string())
    );
    assert_eq!(
        BytecodeModule::from_bytes(&one_function_module(&[61, 0, 0, 0, 0, 7], 1)),
        Err("Unknown IntLocalConstOp tag 7".to_string())
    );
    assert_eq!(
        BytecodeModule::from_bytes(&one_function_module(&[63, 0, 0, 0, 0, 5], 1)),
        Err("Unknown IntStackOpToLocal tag 5".to_string())
    );
}

#[test]
fn invalid_utf8_text_reports_the_std_error() {
    let err = BytecodeModule::from_bytes(&one_function_module(&[34, 1, 0, 0, 0, 0xff], 1)).unwrap_err();
    assert_eq!(err, String::from_utf8(vec![0xff]).unwrap_err().to_string());
}

#[test]
fn a_later_function_of_the_same_name_replaces_the_earlier() {
    let mut bytes = header(2);
    bytes.extend_from_slice(&0u32.to_le_bytes());
    bytes.extend_from_slice(&0u32.to_le_bytes());
    for code in [8u8, 32u8] {
        bytes.extend_from_slice(&1u32.to_le_bytes());
        bytes.push(b'f');
        bytes.extend_from_slice(&0u32.to_le_bytes());
        bytes.extend_from_slice(&0u32.to_le_bytes());
        bytes.extend_from_slice(&1u32.to_le_bytes());
        bytes.push(code);
    }
    let module = BytecodeModule::from_bytes(&bytes).expect("decodes");
    assert_eq!(module.functions.len(), 1);
    assert_eq!(module.functions[0].code, vec![Instr::Return]);
}

#[test]
fn trailing_bytes_after_the_functions_are_ignored() {
    let mut bytes = sample_module().to_bytes();
    bytes.extend_from_slice(&[1, 2, 3]);
    assert!(BytecodeModule::from_bytes(&bytes).is_ok());
}
