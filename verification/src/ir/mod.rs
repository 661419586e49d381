//! The intermediate representation: functions of basic blocks over typed temps.

use vstd::prelude::*;

pub mod cfg;
pub mod consts;
pub mod facts;
pub mod instr;
pub mod interp;
pub mod opt;
pub mod pretty;
pub mod verify;

pub use self::instr::{
    BinaryOp, BranchTerminator, BuiltinCall, CmpOp, FieldRef, Instr, LogicOp, Terminator, UnaryOp,
};

verus! {

broadcast use vstd::std_specs::vec::group_vec_axioms;

/// Identifies a basic block inside a function.
#[derive(Debug, Clone, Copy, PartialEq, Eq, Structural)]
pub struct BlockId(pub usize);

/// Identifies a function of the program.
#[derive(Debug, Clone, Copy, PartialEq, Eq, Structural)]
pub struct FunctionId(pub usize);

/// Identifies a single-assignment temporary of a function.
#[derive(Debug, Clone, Copy, PartialEq, Eq, Structural)]
pub struct TempId(pub usize);

/// Identifies a mutable local slot of a function.
#[derive(Debug, Clone, Copy, PartialEq, Eq, Structural)]
pub struct LocalId(pub usize);

/// Identifies a module-level global.
#[derive(Debug, Clone, Copy, PartialEq, Eq, Structural)]
pub struct GlobalId(pub usize);

/// Identifies a struct declaration of the program.
#[derive(Debug, Clone, Copy, PartialEq, Eq, Structural)]
pub struct StructId(pub usize);

/// The type of an IR value.
#[derive(Debug, PartialEq)]
pub enum IrType {
    Int,
    Float,
    Bool,
    String,
    Void,
    Unknown,
    Named(String),
    Array { elem: Box<IrType>, size: usize },
    Vec { elem: Box<IrType> },
    Fn { params: Vec<IrType>, ret: Box<IrType> },
}

/// A compile-time constant. A float constant is held as the bit pattern of its
/// IEEE-754 binary64 value (what `f64::to_bits` gives).
#[derive(Debug, PartialEq)]
pub enum ConstValue {
    Int(i64),
    Float(u64),
    Bool(bool),
    String(String),
    Unit,
}

/// An instruction operand.
#[derive(Debug, PartialEq)]
pub enum Operand {
    Const(ConstValue),
    Temp(TempId),
    Local(LocalId),
    Global(GlobalId),
}

/// A function parameter.
#[derive(Debug, PartialEq)]
pub struct IrParam {
    pub id: LocalId,
    pub name: String,
    pub ty: IrType,
}

/// A local slot declaration.
#[derive(Debug, PartialEq)]
pub struct IrLocal {
    pub id: LocalId,
    pub name: String,
    pub ty: IrType,
}

/// A temp declaration.
#[derive(Debug, PartialEq)]
pub struct IrTemp {
    pub id: TempId,
    pub ty: IrType,
}

/// A basic block: straight-line instructions and one terminator.
#[derive(Debug, PartialEq)]
pub struct BasicBlock {
    pub id: BlockId,
    pub name: String,
    pub instrs: Vec<Instr>,
    pub terminator: Terminator,
}

/// A function in IR form.
#[derive(Debug, PartialEq)]
pub struct IrFunction {
    pub id: FunctionId,
    pub name: String,
    pub params: Vec<IrParam>,
    pub locals: Vec<IrLocal>,
    pub temps: Vec<IrTemp>,
    pub ret_ty: IrType,
    pub entry: BlockId,
    pub blocks: Vec<BasicBlock>,
}

/// A module-level global and its constant initializer, if any.
#[derive(Debug, PartialEq)]
pub struct IrGlobal {
    pub id: GlobalId,
    pub name: String,
    pub ty: IrType,
    pub init: Option<ConstValue>,
}

/// A field of a struct declaration.
#[derive(Debug, PartialEq)]
pub struct StructField {
    pub name: String,
    pub ty: IrType,
}

/// A struct declaration.
#[derive(Debug, PartialEq)]
pub struct IrStruct {
    pub id: StructId,
    pub name: String,
    pub fields: Vec<StructField>,
}

/// The function that runs the module's global initializers.
#[derive(Debug, PartialEq)]
pub struct ModuleInit {
    pub function: FunctionId,
}

/// A whole program in IR form.
#[derive(Debug, PartialEq)]
pub struct IrProgram {
    pub functions: Vec<IrFunction>,
    pub globals: Vec<IrGlobal>,
    pub structs: Vec<IrStruct>,
    pub module_init: Option<ModuleInit>,
}

impl IrType {
    /// `true` exactly for `Void`.
    pub open spec fn spec_is_void(&self) -> bool {
        self is Void
    }

    #[verifier::when_used_as_spec(spec_is_void)]
    pub fn is_void(&self) -> (r: bool)
        ensures
            r == self.spec_is_void(),
    {
        matches!(self, IrType::Void)
    }
}

/// Two types denote the same type: same shape, names with equal text,
/// equal sizes, parameter lists of equal length and pairwise the same.
pub open spec fn same_type(a: IrType, b: IrType) -> bool
    decreases a,
{
    match (a, b) {
        (IrType::Int, IrType::Int) => true,
        (IrType::Float, IrType::Float) => true,
        (IrType::Bool, IrType::Bool) => true,
        (IrType::String, IrType::String) => true,
        (IrType::Void, IrType::Void) => true,
        (IrType::Unknown, IrType::Unknown) => true,
        (IrType::Named(x), IrType::Named(y)) => x@ == y@,
        (IrType::Array { elem: e1, size: s1 }, IrType::Array { elem: e2, size: s2 }) =>
            s1 == s2 && same_type(*e1, *e2),
        (IrType::Vec { elem: e1 }, IrType::Vec { elem: e2 }) => same_type(*e1, *e2),
        (IrType::Fn { params: p1, ret: r1 }, IrType::Fn { params: p2, ret: r2 }) =>
            p1@.len() == p2@.len()
            && (forall|i: int| 0 <= i < p1@.len() ==> same_type(#[trigger] p1@[i], p2@[i]))
            && same_type(*r1, *r2),
        _ => false,
    }
}

/// Decides `same_type`.
#[verifier::loop_isolation(false)]
pub fn types_equal(a: &IrType, b: &IrType) -> (r: bool)
    ensures
        r == same_type(*a, *b),
    decreases a,
{
    match (a, b) {
        (IrType::Int, IrType::Int) => true,
        (IrType::Float, IrType::Float) => true,
        (IrType::Bool, IrType::Bool) => true,
        (IrType::String, IrType::String) => true,
        (IrType::Void, IrType::Void) => true,
        (IrType::Unknown, IrType::Unknown) => true,
        (IrType::Named(x), IrType::Named(y)) => *x == *y,
        (IrType::Array { elem: e1, size: s1 }, IrType::Array { elem: e2, size: s2 }) => {
            *s1 == *s2 && types_equal(e1, e2)
        },
        (IrType::Vec { elem: e1 }, IrType::Vec { elem: e2 }) => types_equal(e1, e2),
        (IrType::Fn { params: p1, ret: r1 }, IrType::Fn { params: p2, ret: r2 }) => {
            if p1.len() != p2.len() {
                return false;
            }
            let mut i: usize = 0;
            while i < p1.len()
                invariant
                    i <= p1@.len(),
                    p1@.len() == p2@.len(),
                    forall|j: int| 0 <= j < i ==> same_type(#[trigger] p1@[j], p2@[j]),
                decreases p1@.len() - i,
            {
                proof {
                    assert(decreases_to!(*p1 => p1@));
                    assert(decreases_to!(*a => p1@[i as int]));
                }
                if !types_equal(&p1[i], &p2[i]) {
                    return false;
                }
                i += 1;
            }
            types_equal(r1, r2)
        },
        _ => false,
    }
}

/// Copies a type; the copy is the same type.
#[verifier::loop_isolation(false)]
pub fn copy_type(t: &IrType) -> (r: IrType)
    ensures
        same_type(r, *t),
    decreases t,
{
    match t {
        IrType::Int => IrType::Int,
        IrType::Float => IrType::Float,
        IrType::Bool => IrType::Bool,
        IrType::String => IrType::String,
        IrType::Void => IrType::Void,
        IrType::Unknown => IrType::Unknown,
        IrType::Named(n) => IrType::Named(n.clone()),
        IrType::Array { elem, size } => IrType::Array { elem: Box::new(copy_type(elem)), size: *size },
        IrType::Vec { elem } => IrType::Vec { elem: Box::new(copy_type(elem)) },
        IrType::Fn { params, ret } => {
            let mut out: Vec<IrType> = Vec::new();
            let mut i: usize = 0;
            while i < params.len()
                invariant
                    i <= params@.len(),
                    out@.len() == i,
                    forall|j: int| 0 <= j < i ==> same_type(#[trigger] out@[j], params@[j]),
                decreases params@.len() - i,
            {
                proof {
                    assert(decreases_to!(*params => params@));
                    assert(decreases_to!(*t => params@[i as int]));
                }
                out.push(copy_type(&params[i]));
                i += 1;
            }
            IrType::Fn { params: out, ret: Box::new(copy_type(ret)) }
        },
    }
}

/// Copies a constant; the copy is equal to it.
pub fn copy_const(c: &ConstValue) -> (r: ConstValue)
    ensures
        r == *c,
{
    match c {
        ConstValue::Int(v) => ConstValue::Int(*v),
        ConstValue::Float(v) => ConstValue::Float(*v),
        ConstValue::Bool(v) => ConstValue::Bool(*v),
        ConstValue::String(s) => ConstValue::String(s.clone()),
        ConstValue::Unit => ConstValue::Unit,
    }
}

/// Copies an operand; the copy is equal to it.
pub fn copy_operand(o: &Operand) -> (r: Operand)
    ensures
        r == *o,
{
    match o {
        Operand::Const(c) => Operand::Const(copy_const(c)),
        Operand::Temp(t) => Operand::Temp(*t),
        Operand::Local(l) => Operand::Local(*l),
        Operand::Global(g) => Operand::Global(*g),
    }
}

} // verus!
