//! Bytecode of the stack machine: values, instructions, function chunks,
//! and modules, with the mathematical view each is specified over.

use vstd::prelude::*;

use crate::codegen::texts;

pub mod codec;
pub mod decode;
pub mod peephole;
pub mod round_trip;

verus! {

broadcast use vstd::std_specs::vec::group_vec_axioms;

/// The layout of a struct value: its name and the names of its fields.
#[derive(Debug, Clone, PartialEq)]
pub struct StructShape {
    pub name: String,
    pub field_names: Vec<String>,
}

/// A value of the machine. A float is held as the bits of its `f64`.
#[derive(Debug, PartialEq)]
pub enum Value {
    Int(i64),
    Float(u64),
    Bool(bool),
    String(String),
    Array(Vec<Value>),
    VecHandle(u64),
    Function(String),
    FunctionIdx(usize),
    Struct { shape: StructShape, fields: Vec<Value> },
    Unit,
}

/// The integer operation of a fused local/constant instruction.
#[derive(Debug, Clone, Copy, PartialEq, Eq, Structural)]
pub enum IntLocalConstOp {
    Add,
    Sub,
    Mul,
    Div,
    Mod,
}

/// An instruction of the machine.
#[derive(Debug, PartialEq)]
pub enum Instr {
    LoadConst(Value),
    LoadLocal(usize),
    StoreLocal(usize),
    AddLocalToLocal { dst: usize, src: usize },
    AddConstToLocal { slot: usize, rhs: i64 },
    IntLocalLocalOp { lhs: usize, rhs: usize, op: IntLocalConstOp },
    IntLocalConstOp { slot: usize, op: IntLocalConstOp, rhs: i64 },
    IntStackOpToLocal { slot: usize, op: IntLocalConstOp },
    LoadGlobal(usize),
    StoreGlobal(usize),
    Pop,
    NegInt,
    NotBool,
    Add,
    SubInt,
    MulInt,
    DivInt,
    ModInt,
    Eq,
    Neq,
    LtInt,
    LteInt,
    GtInt,
    GteInt,
    AndBool,
    OrBool,
    Jump(usize),
    JumpIfFalse(usize),
    JumpIfTrue(usize),
    JumpIfLocalLtConst { slot: usize, rhs: i64, target: usize },
    Call { name: String, argc: usize },
    CallIdx { idx: usize, argc: usize },
    CallIdxAddConst(i64),
    CallIdxStructFieldAdd(usize),
    CallValue { argc: usize },
    CallMethod { name: String, argc: usize },
    CallMethodId { id: usize, argc: usize },
    CallBuiltin { package: String, name: String, argc: usize },
    CallBuiltinId { id: u16, argc: usize },
    StrLen,
    StrLenLocal(usize),
    StrIndexOfConst(String),
    StrIndexOfLocalConst { slot: usize, needle: String },
    StrSliceConst { start: i64, end: i64 },
    StrSliceLocalConst { slot: usize, start: i64, end: i64 },
    StrContainsConst(String),
    StrContainsLocalConst { slot: usize, needle: String },
    MakeArray(usize),
    MakeArrayRepeat(usize),
    ArrayGet,
    ArrayGetLocal(usize),
    ArraySet,
    ArraySetLocal(usize),
    ArrayIncLocal(usize),
    ArraySetChain(usize),
    ArrayLen,
    MakeStruct { name: String, fields: Vec<String> },
    MakeStructId { id: usize },
    StructGet(String),
    StructGetLocalSlot { slot: usize, field_slot: usize },
    StructGetSlot(usize),
    StructSetPath(Vec<String>),
    StructSetPathSlots(Vec<usize>),
    Return,
}

/// The code of one function, with the number of its locals and parameters.
#[derive(Debug, PartialEq)]
pub struct FunctionChunk {
    pub name: String,
    pub code: Vec<Instr>,
    pub locals_count: usize,
    pub param_count: usize,
}

/// A compiled program: its functions (each under its own name; a module
/// read from bytes has no two of one name), the method names and the struct
/// shapes that instructions refer to by index.
#[derive(Debug, PartialEq)]
pub struct BytecodeModule {
    pub functions: Vec<FunctionChunk>,
    pub method_names: Vec<String>,
    pub struct_shapes: Vec<StructShape>,
}

impl Default for FunctionChunk {
    fn default() -> (r: Self)
        ensures
            r.name@ == Seq::<char>::empty(),
            r.code@.len() == 0,
            r.locals_count == 0,
            r.param_count == 0,
    {
        FunctionChunk { name: String::new(), code: Vec::new(), locals_count: 0, param_count: 0 }
    }
}

impl Default for BytecodeModule {
    fn default() -> (r: Self)
        ensures
            r.functions@.len() == 0,
            r.method_names@.len() == 0,
            r.struct_shapes@.len() == 0,
    {
        BytecodeModule { functions: Vec::new(), method_names: Vec::new(), struct_shapes: Vec::new() }
    }
}

/// A value as mathematics sees it.
pub enum ValueV {
    Int(i64),
    Float(u64),
    Bool(bool),
    Str(Seq<char>),
    Array(Seq<ValueV>),
    VecHandle(u64),
    Function(Seq<char>),
    FunctionIdx(usize),
    Struct(Seq<char>, Seq<Seq<char>>, Seq<ValueV>),
    Unit,
}

/// The view of a value.
pub open spec fn value_view(v: Value) -> ValueV
    decreases v,
{
    match v {
        Value::Int(n) => ValueV::Int(n),
        Value::Float(b) => ValueV::Float(b),
        Value::Bool(b) => ValueV::Bool(b),
        Value::String(s) => ValueV::Str(s@),
        Value::Array(items) => ValueV::Array(values_view(items@)),
        Value::VecHandle(h) => ValueV::VecHandle(h),
        Value::Function(s) => ValueV::Function(s@),
        Value::FunctionIdx(i) => ValueV::FunctionIdx(i),
        Value::Struct { shape, fields } => ValueV::Struct(shape.name@, texts(shape.field_names@), values_view(fields@)),
        Value::Unit => ValueV::Unit,
    }
}

/// The views of a sequence of values.
pub open spec fn values_view(s: Seq<Value>) -> Seq<ValueV>
    decreases s,
{
    if s.len() == 0 {
        seq![]
    } else {
        values_view(s.drop_last()).push(value_view(s.last()))
    }
}

/// One operand of an instruction, as mathematics sees it: a slot or count
/// (`usize`), an integer, a builtin id, an operation, a text, a list of texts
/// or of slots, or a value.
pub enum FieldV {
    Slot(usize),
    Int(i64),
    Half(u16),
    Op(IntLocalConstOp),
    Text(Seq<char>),
    Texts(Seq<Seq<char>>),
    Slots(Seq<usize>),
    Val(ValueV),
}

/// The view of an instruction: its opcode and its operands in order.
pub open spec fn instr_parts(i: Instr) -> (u8, Seq<FieldV>) {
    match i {
        Instr::LoadConst(x0) => (0u8, seq![FieldV::Val(value_view(x0))]),
        Instr::LoadLocal(x0) => (1u8, seq![FieldV::Slot(x0)]),
        Instr::StoreLocal(x0) => (2u8, seq![FieldV::Slot(x0)]),
        Instr::AddLocalToLocal { dst, src } => (48u8, seq![FieldV::Slot(dst), FieldV::Slot(src)]),
        Instr::AddConstToLocal { slot, rhs } => (49u8, seq![FieldV::Slot(slot), FieldV::Int(rhs)]),
        Instr::IntLocalLocalOp { lhs, rhs, op } => (62u8, seq![FieldV::Slot(lhs), FieldV::Slot(rhs), FieldV::Op(op)]),
        Instr::IntLocalConstOp { slot, op, rhs } => (61u8, seq![FieldV::Slot(slot), FieldV::Op(op), FieldV::Int(rhs)]),
        Instr::IntStackOpToLocal { slot, op } => (63u8, seq![FieldV::Slot(slot), FieldV::Op(op)]),
        Instr::LoadGlobal(x0) => (3u8, seq![FieldV::Slot(x0)]),
        Instr::StoreGlobal(x0) => (4u8, seq![FieldV::Slot(x0)]),
        Instr::Pop => (5u8, seq![]),
        Instr::NegInt => (6u8, seq![]),
        Instr::NotBool => (7u8, seq![]),
        Instr::Add => (8u8, seq![]),
        Instr::SubInt => (9u8, seq![]),
        Instr::MulInt => (10u8, seq![]),
        Instr::DivInt => (11u8, seq![]),
        Instr::ModInt => (12u8, seq![]),
        Instr::Eq => (13u8, seq![]),
        Instr::Neq => (14u8, seq![]),
        Instr::LtInt => (15u8, seq![]),
        Instr::LteInt => (16u8, seq![]),
        Instr::GtInt => (17u8, seq![]),
        Instr::GteInt => (18u8, seq![]),
        Instr::AndBool => (19u8, seq![]),
        Instr::OrBool => (20u8, seq![]),
        Instr::Jump(x0) => (21u8, seq![FieldV::Slot(x0)]),
        Instr::JumpIfFalse(x0) => (22u8, seq![FieldV::Slot(x0)]),
        Instr::JumpIfTrue(x0) => (23u8, seq![FieldV::Slot(x0)]),
        Instr::JumpIfLocalLtConst { slot, rhs, target } => (46u8, seq![FieldV::Slot(slot), FieldV::Int(rhs), FieldV::Slot(target)]),
        Instr::Call { name, argc } => (24u8, seq![FieldV::Text(name@), FieldV::Slot(argc)]),
        Instr::CallIdx { idx, argc } => (38u8, seq![FieldV::Slot(idx), FieldV::Slot(argc)]),
        Instr::CallIdxAddConst(x0) => (47u8, seq![FieldV::Int(x0)]),
        Instr::CallIdxStructFieldAdd(x0) => (51u8, seq![FieldV::Slot(x0)]),
        Instr::CallValue { argc } => (37u8, seq![FieldV::Slot(argc)]),
        Instr::CallMethod { name, argc } => (36u8, seq![FieldV::Text(name@), FieldV::Slot(argc)]),
        Instr::CallMethodId { id, argc } => (43u8, seq![FieldV::Slot(id), FieldV::Slot(argc)]),
        Instr::CallBuiltin { package, name, argc } => (25u8, seq![FieldV::Text(package@), FieldV::Text(name@), FieldV::Slot(argc)]),
        Instr::CallBuiltinId { id, argc } => (41u8, seq![FieldV::Half(id), FieldV::Slot(argc)]),
        Instr::StrLen => (52u8, seq![]),
        Instr::StrLenLocal(x0) => (56u8, seq![FieldV::Slot(x0)]),
        Instr::StrIndexOfConst(x0) => (53u8, seq![FieldV::Text(x0@)]),
        Instr::StrIndexOfLocalConst { slot, needle } => (57u8, seq![FieldV::Slot(slot), FieldV::Text(needle@)]),
        Instr::StrSliceConst { start, end } => (54u8, seq![FieldV::Int(start), FieldV::Int(end)]),
        Instr::StrSliceLocalConst { slot, start, end } => (58u8, seq![FieldV::Slot(slot), FieldV::Int(start), FieldV::Int(end)]),
        Instr::StrContainsConst(x0) => (55u8, seq![FieldV::Text(x0@)]),
        Instr::StrContainsLocalConst { slot, needle } => (59u8, seq![FieldV::Slot(slot), FieldV::Text(needle@)]),
        Instr::MakeArray(x0) => (26u8, seq![FieldV::Slot(x0)]),
        Instr::MakeArrayRepeat(x0) => (27u8, seq![FieldV::Slot(x0)]),
        Instr::ArrayGet => (28u8, seq![]),
        Instr::ArrayGetLocal(x0) => (60u8, seq![FieldV::Slot(x0)]),
        Instr::ArraySet => (29u8, seq![]),
        Instr::ArraySetLocal(x0) => (45u8, seq![FieldV::Slot(x0)]),
        Instr::ArrayIncLocal(x0) => (50u8, seq![FieldV::Slot(x0)]),
        Instr::ArraySetChain(x0) => (30u8, seq![FieldV::Slot(x0)]),
        Instr::ArrayLen => (31u8, seq![]),
        Instr::MakeStruct { name, fields } => (33u8, seq![FieldV::Text(name@), FieldV::Texts(texts(fields@))]),
        Instr::MakeStructId { id } => (44u8, seq![FieldV::Slot(id)]),
        Instr::StructGet(x0) => (34u8, seq![FieldV::Text(x0@)]),
        Instr::StructGetLocalSlot { slot, field_slot } => (64u8, seq![FieldV::Slot(slot), FieldV::Slot(field_slot)]),
        Instr::StructGetSlot(x0) => (39u8, seq![FieldV::Slot(x0)]),
        Instr::StructSetPath(x0) => (35u8, seq![FieldV::Texts(texts(x0@))]),
        Instr::StructSetPathSlots(x0) => (40u8, seq![FieldV::Slots(x0@)]),
        Instr::Return => (32u8, seq![]),
    }
}

/// A struct shape as mathematics sees it.
pub struct ShapeV {
    pub name: Seq<char>,
    pub field_names: Seq<Seq<char>>,
}

/// A function chunk as mathematics sees it: its code is the view of each
/// instruction.
pub struct ChunkV {
    pub name: Seq<char>,
    pub code: Seq<(u8, Seq<FieldV>)>,
    pub locals_count: usize,
    pub param_count: usize,
}

/// A module as mathematics sees it.
pub struct ModuleV {
    pub functions: Seq<ChunkV>,
    pub method_names: Seq<Seq<char>>,
    pub struct_shapes: Seq<ShapeV>,
}

/// The view of a struct shape.
pub open spec fn shape_view(s: StructShape) -> ShapeV {
    ShapeV { name: s.name@, field_names: texts(s.field_names@) }
}

/// The views of instructions.
pub open spec fn code_view(code: Seq<Instr>) -> Seq<(u8, Seq<FieldV>)> {
    code.map_values(|i: Instr| instr_parts(i))
}

/// The view of a function chunk.
pub open spec fn chunk_view(c: FunctionChunk) -> ChunkV {
    ChunkV { name: c.name@, code: code_view(c.code@), locals_count: c.locals_count, param_count: c.param_count }
}

/// The view of a module.
pub open spec fn module_view(m: BytecodeModule) -> ModuleV {
    ModuleV {
        functions: m.functions@.map_values(|c: FunctionChunk| chunk_view(c)),
        method_names: texts(m.method_names@),
        struct_shapes: m.struct_shapes@.map_values(|s: StructShape| shape_view(s)),
    }
}

} // verus!
