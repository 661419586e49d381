//! The byte format of a bytecode module: integers little-endian, texts as
//! their UTF-8 length and bytes, each value and instruction as a tag byte and
//! its operands, and a module as a magic header, a version, its method
//! names, struct shapes and functions.

use vstd::prelude::*;

use crate::bytecode::decode::magic;
use crate::bytecode::{
    chunk_view, code_view, instr_parts, shape_view, value_view, values_view, BytecodeModule, ChunkV, FieldV, FunctionChunk,
    Instr, IntLocalConstOp, ModuleV, ShapeV, StructShape, Value, ValueV,
};
use crate::text::{is_sorted_order, sorted_positions};
use crate::codegen::texts;
use crate::ir::consts::utf8;

verus! {

broadcast use vstd::std_specs::vec::group_vec_axioms;

/// The low `n` bytes of `v`, least significant first.
pub open spec fn le_bytes(v: nat, n: nat) -> Seq<u8>
    decreases n,
{
    if n == 0 {
        seq![]
    } else {
        seq![(v % 256) as u8] + le_bytes(v / 256, (n - 1) as nat)
    }
}

/// A `u32` in four bytes.
pub open spec fn u32_le(v: u32) -> Seq<u8> {
    le_bytes(v as nat, 4)
}

/// A `u64` in eight bytes.
pub open spec fn u64_le(v: u64) -> Seq<u8> {
    le_bytes(v as nat, 8)
}

/// An `i64` in eight bytes, two's complement.
pub open spec fn i64_le(v: i64) -> Seq<u8> {
    u64_le(v as u64)
}

/// A text: the length of its UTF-8 form, then that form.
pub open spec fn str_le(s: Seq<char>) -> Seq<u8> {
    u32_le(utf8(s).len() as u32) + utf8(s)
}

/// The byte of an integer operation.
pub open spec fn op_code(op: IntLocalConstOp) -> u8 {
    match op {
        IntLocalConstOp::Add => 0,
        IntLocalConstOp::Sub => 1,
        IntLocalConstOp::Mul => 2,
        IntLocalConstOp::Div => 3,
        IntLocalConstOp::Mod => 4,
    }
}

/// Texts one after another.
pub open spec fn enc_texts(ts: Seq<Seq<char>>) -> Seq<u8>
    decreases ts.len(),
{
    if ts.len() == 0 {
        seq![]
    } else {
        enc_texts(ts.drop_last()) + str_le(ts.last())
    }
}

/// Slots one after another, each in four bytes.
pub open spec fn enc_slots(ss: Seq<usize>) -> Seq<u8>
    decreases ss.len(),
{
    if ss.len() == 0 {
        seq![]
    } else {
        enc_slots(ss.drop_last()) + u32_le(ss.last() as u32)
    }
}

/// The bytes of a value: its tag, then its contents.
pub open spec fn enc_value(v: ValueV) -> Seq<u8>
    decreases v,
{
    match v {
        ValueV::Int(n) => seq![0u8] + i64_le(n),
        ValueV::Float(b) => seq![1u8] + u64_le(b),
        ValueV::Bool(b) => seq![2u8, if b { 1u8 } else { 0u8 }],
        ValueV::Str(s) => seq![3u8] + str_le(s),
        ValueV::Array(items) => seq![4u8] + u32_le(items.len() as u32) + enc_values(items),
        ValueV::VecHandle(_) => seq![],
        ValueV::Function(s) => seq![5u8] + str_le(s),
        ValueV::FunctionIdx(i) => seq![8u8] + u32_le(i as u32),
        ValueV::Struct(name, field_names, fields) => seq![7u8] + str_le(name) + u32_le(field_names.len() as u32)
            + enc_texts(field_names) + u32_le(fields.len() as u32) + enc_values(fields),
        ValueV::Unit => seq![6u8],
    }
}

/// Values one after another.
pub open spec fn enc_values(s: Seq<ValueV>) -> Seq<u8>
    decreases s,
{
    if s.len() == 0 {
        seq![]
    } else {
        enc_values(s.drop_last()) + enc_value(s.last())
    }
}

/// A value has a byte form: no vector handle (a handle lives only while a
/// program runs) occurs in it.
pub open spec fn storable(v: ValueV) -> bool
    decreases v,
{
    match v {
        ValueV::VecHandle(_) => false,
        ValueV::Array(items) => all_storable(items),
        ValueV::Struct(_, _, fields) => all_storable(fields),
        _ => true,
    }
}

/// Every value of `s` is storable.
pub open spec fn all_storable(s: Seq<ValueV>) -> bool
    decreases s,
{
    s.len() == 0 || (all_storable(s.drop_last()) && storable(s.last()))
}

/// `all_storable` holds just when each value is storable.
pub proof fn lemma_all_storable(s: Seq<ValueV>)
    ensures
        all_storable(s) <==> forall|k: int| 0 <= k < s.len() ==> storable(#[trigger] s[k]),
    decreases s.len(),
{
    if s.len() > 0 {
        lemma_all_storable(s.drop_last());
        if forall|k: int| 0 <= k < s.len() ==> storable(#[trigger] s[k]) {
            assert forall|k: int| 0 <= k < s.drop_last().len() implies storable(#[trigger] s.drop_last()[k]) by {
                assert(s.drop_last()[k] == s[k]);
            }
        }
        if all_storable(s) {
            assert forall|k: int| 0 <= k < s.len() implies storable(#[trigger] s[k]) by {
                if k < s.len() - 1 {
                    assert(s.drop_last()[k] == s[k]);
                }
            }
        }
    }
}

/// The bytes of an operand.
pub open spec fn enc_field(f: FieldV) -> Seq<u8> {
    match f {
        FieldV::Slot(s) => u32_le(s as u32),
        FieldV::Int(v) => i64_le(v),
        FieldV::Half(h) => u32_le(h as u32),
        FieldV::Op(op) => seq![op_code(op)],
        FieldV::Text(s) => str_le(s),
        FieldV::Texts(ts) => u32_le(ts.len() as u32) + enc_texts(ts),
        FieldV::Slots(ss) => u32_le(ss.len() as u32) + enc_slots(ss),
        FieldV::Val(v) => enc_value(v),
    }
}

/// Operands one after another.
pub open spec fn enc_fields(fs: Seq<FieldV>) -> Seq<u8>
    decreases fs.len(),
{
    if fs.len() == 0 {
        seq![]
    } else {
        enc_fields(fs.drop_last()) + enc_field(fs.last())
    }
}

/// The bytes of an instruction's view: its opcode, then its operands.
pub open spec fn enc_parts(p: (u8, Seq<FieldV>)) -> Seq<u8> {
    seq![p.0] + enc_fields(p.1)
}

/// The bytes of an instruction.
pub open spec fn enc_instr(i: Instr) -> Seq<u8> {
    enc_parts(instr_parts(i))
}

/// An operand has a byte form: a value in it is storable.
pub open spec fn field_storable(f: FieldV) -> bool {
    match f {
        FieldV::Val(v) => storable(v),
        _ => true,
    }
}

/// An instruction has a byte form: a constant it loads is storable.
pub open spec fn instr_storable(i: Instr) -> bool {
    forall|k: int| 0 <= k < instr_parts(i).1.len() ==> field_storable(#[trigger] instr_parts(i).1[k])
}

/// Appends a byte.
fn write_u8(out: &mut Vec<u8>, v: u8)
    ensures
        final(out)@ == old(out)@.push(v),
{
    out.push(v);
}

/// Appends the low `n` bytes of `v`.
fn write_le(out: &mut Vec<u8>, v: u64, n: usize)
    requires
        n <= 8,
    ensures
        final(out)@ == old(out)@ + le_bytes(v as nat, n as nat),
    decreases n,
{
    if n > 0 {
        out.push((v % 256) as u8);
        write_le(out, v / 256, n - 1);
        assert(final(out)@ =~= old(out)@ + le_bytes(v as nat, n as nat));
    }
}

/// Appends a `u32` in four bytes.
fn write_u32(out: &mut Vec<u8>, v: u32)
    ensures
        final(out)@ == old(out)@ + u32_le(v),
{
    write_le(out, v as u64, 4);
}

/// Appends a `u64` in eight bytes.
fn write_u64(out: &mut Vec<u8>, v: u64)
    ensures
        final(out)@ == old(out)@ + u64_le(v),
{
    write_le(out, v, 8);
}

/// Appends an `i64` in eight bytes.
fn write_i64(out: &mut Vec<u8>, v: i64)
    ensures
        final(out)@ == old(out)@ + i64_le(v),
{
    write_u64(out, v as u64);
}

/// Appends a text: its UTF-8 length in four bytes, then its UTF-8 bytes.
fn write_str(out: &mut Vec<u8>, s: &str)
    ensures
        final(out)@ == old(out)@ + str_le(s@),
{
    let bytes = s.as_bytes();
    write_u32(out, bytes.len() as u32);
    let ghost start = out@;
    let mut k: usize = 0;
    while k < bytes.len()
        invariant
            k <= bytes@.len(),
            out@ == start + bytes@.take(k as int),
        decreases bytes@.len() - k,
    {
        out.push(bytes[k]);
        proof {
            assert(bytes@.take(k + 1) =~= bytes@.take(k as int).push(bytes@[k as int]));
        }
        k += 1;
    }
    assert(bytes@.take(k as int) =~= bytes@);
}

/// Appends texts, each as `write_str` does.
fn write_texts(out: &mut Vec<u8>, ts: &Vec<String>)
    ensures
        final(out)@ == old(out)@ + enc_texts(texts(ts@)),
{
    let ghost start = out@;
    let mut k: usize = 0;
    while k < ts.len()
        invariant
            k <= ts@.len(),
            out@ == start + enc_texts(texts(ts@).take(k as int)),
        decreases ts@.len() - k,
    {
        write_str(out, ts[k].as_str());
        proof {
            assert(texts(ts@).take(k + 1).drop_last() =~= texts(ts@).take(k as int));
        }
        k += 1;
    }
    assert(texts(ts@).take(k as int) =~= texts(ts@));
}

/// Appends slots, each in four bytes.
fn write_slots(out: &mut Vec<u8>, ss: &Vec<usize>)
    ensures
        final(out)@ == old(out)@ + enc_slots(ss@),
{
    let ghost start = out@;
    let mut k: usize = 0;
    while k < ss.len()
        invariant
            k <= ss@.len(),
            out@ == start + enc_slots(ss@.take(k as int)),
        decreases ss@.len() - k,
    {
        write_u32(out, ss[k] as u32);
        proof {
            assert(ss@.take(k + 1).drop_last() =~= ss@.take(k as int));
        }
        k += 1;
    }
    assert(ss@.take(k as int) =~= ss@);
}

/// The views of a sequence of values, one by one.
pub proof fn lemma_values_view(s: Seq<Value>)
    ensures
        values_view(s).len() == s.len(),
        forall|k: int| 0 <= k < s.len() ==> #[trigger] values_view(s)[k] == value_view(s[k]),
    decreases s.len(),
{
    if s.len() > 0 {
        lemma_values_view(s.drop_last());
    }
}

/// The views of the first `k + 1` values extend those of the first `k`.
pub proof fn lemma_values_view_take(s: Seq<Value>, k: int)
    requires
        0 <= k < s.len(),
    ensures
        values_view(s.take(k + 1)) == values_view(s.take(k)).push(value_view(s[k])),
        values_view(s.take(k + 1)).drop_last() == values_view(s.take(k)),
{
    assert(s.take(k + 1).drop_last() =~= s.take(k));
    assert(values_view(s.take(k + 1)).drop_last() =~= values_view(s.take(k)));
}

/// Appends the bytes of a storable value.
fn encode_value(v: &Value, out: &mut Vec<u8>)
    requires
        storable(value_view(*v)),
    ensures
        final(out)@ == old(out)@ + enc_value(value_view(*v)),
    decreases v,
{
    match v {
        Value::Int(n) => {
            write_u8(out, 0);
            write_i64(out, *n);
        },
        Value::Float(b) => {
            write_u8(out, 1);
            write_u64(out, *b);
        },
        Value::Bool(b) => {
            write_u8(out, 2);
            write_u8(out, if *b { 1 } else { 0 });
        },
        Value::String(s) => {
            write_u8(out, 3);
            write_str(out, s.as_str());
        },
        Value::Array(items) => {
            write_u8(out, 4);
            write_u32(out, items.len() as u32);
            proof {
                lemma_values_view(items@);
                assert(value_view(*v) == ValueV::Array(values_view(items@)));
                lemma_all_storable(values_view(items@));
                assert forall|j: int| 0 <= j < items@.len() implies storable(#[trigger] value_view(items@[j])) by {
                    assert(values_view(items@)[j] == value_view(items@[j]));
                    assert(storable(values_view(items@)[j]));
                }
            }
            let ghost start = out@;
            let mut k: usize = 0;
            while k < items.len()
                invariant
                    k <= items@.len(),
                    forall|j: int| 0 <= j < items@.len() ==> storable(#[trigger] value_view(items@[j])),
                    out@ == start + enc_values(values_view(items@.take(k as int))),
                    decreases_to!(*v => *items),
                decreases items@.len() - k,
            {
                proof {
                    assert(decreases_to!(*items => items[k as int]));
                }
                encode_value(&items[k], out);
                proof {
                    lemma_values_view_take(items@, k as int);
                }
                k += 1;
            }
            assert(items@.take(k as int) =~= items@);
        },
        Value::VecHandle(_) => {},
        Value::Function(name) => {
            write_u8(out, 5);
            write_str(out, name.as_str());
        },
        Value::FunctionIdx(idx) => {
            write_u8(out, 8);
            write_u32(out, *idx as u32);
        },
        Value::Unit => {
            write_u8(out, 6);
        },
        Value::Struct { shape, fields } => {
            write_u8(out, 7);
            write_str(out, shape.name.as_str());
            write_u32(out, shape.field_names.len() as u32);
            write_texts(out, &shape.field_names);
            write_u32(out, fields.len() as u32);
            proof {
                lemma_values_view(fields@);
                assert(value_view(*v) == ValueV::Struct(shape.name@, texts(shape.field_names@), values_view(fields@)));
                lemma_all_storable(values_view(fields@));
                assert forall|j: int| 0 <= j < fields@.len() implies storable(#[trigger] value_view(fields@[j])) by {
                    assert(values_view(fields@)[j] == value_view(fields@[j]));
                    assert(storable(values_view(fields@)[j]));
                }
            }
            let ghost start = out@;
            let mut k: usize = 0;
            while k < fields.len()
                invariant
                    k <= fields@.len(),
                    forall|j: int| 0 <= j < fields@.len() ==> storable(#[trigger] value_view(fields@[j])),
                    out@ == start + enc_values(values_view(fields@.take(k as int))),
                    decreases_to!(*v => *fields),
                decreases fields@.len() - k,
            {
                proof {
                    assert(decreases_to!(*fields => fields[k as int]));
                }
                encode_value(&fields[k], out);
                proof {
                    lemma_values_view_take(fields@, k as int);
                }
                k += 1;
            }
            assert(fields@.take(k as int) =~= fields@);
        },
    }
    assert(final(out)@ =~= old(out)@ + enc_value(value_view(*v)));
}

/// An operand of an instruction, borrowed from it.
enum FieldRef<'a> {
    Slot(usize),
    Int(i64),
    Half(u16),
    Op(IntLocalConstOp),
    Text(&'a String),
    Texts(&'a Vec<String>),
    Slots(&'a Vec<usize>),
    Val(&'a Value),
}

/// The view of a borrowed operand.
spec fn field_ref_view(f: FieldRef) -> FieldV {
    match f {
        FieldRef::Slot(s) => FieldV::Slot(s),
        FieldRef::Int(v) => FieldV::Int(v),
        FieldRef::Half(h) => FieldV::Half(h),
        FieldRef::Op(op) => FieldV::Op(op),
        FieldRef::Text(s) => FieldV::Text(s@),
        FieldRef::Texts(ts) => FieldV::Texts(texts(ts@)),
        FieldRef::Slots(ss) => FieldV::Slots(ss@),
        FieldRef::Val(v) => FieldV::Val(value_view(*v)),
    }
}

/// The opcode and the operands of an instruction.
#[verifier::rlimit(40)]
fn instr_operands<'a>(i: &'a Instr) -> (r: (u8, Vec<FieldRef<'a>>))
    ensures
        r.0 == instr_parts(*i).0,
        r.1@.len() == instr_parts(*i).1.len(),
        forall|k: int| 0 <= k < r.1@.len() ==> field_ref_view(#[trigger] r.1@[k]) == instr_parts(*i).1[k],
{
    match i {
        Instr::LoadConst(x0) => (0, vec![FieldRef::Val(x0)]),
        Instr::LoadLocal(x0) => (1, vec![FieldRef::Slot(*x0)]),
        Instr::StoreLocal(x0) => (2, vec![FieldRef::Slot(*x0)]),
        Instr::AddLocalToLocal { dst, src } => (48, vec![FieldRef::Slot(*dst), FieldRef::Slot(*src)]),
        Instr::AddConstToLocal { slot, rhs } => (49, vec![FieldRef::Slot(*slot), FieldRef::Int(*rhs)]),
        Instr::IntLocalLocalOp { lhs, rhs, op } => (62, vec![FieldRef::Slot(*lhs), FieldRef::Slot(*rhs), FieldRef::Op(*op)]),
        Instr::IntLocalConstOp { slot, op, rhs } => (61, vec![FieldRef::Slot(*slot), FieldRef::Op(*op), FieldRef::Int(*rhs)]),
        Instr::IntStackOpToLocal { slot, op } => (63, vec![FieldRef::Slot(*slot), FieldRef::Op(*op)]),
        Instr::LoadGlobal(x0) => (3, vec![FieldRef::Slot(*x0)]),
        Instr::StoreGlobal(x0) => (4, vec![FieldRef::Slot(*x0)]),
        Instr::Pop => (5, Vec::new()),
        Instr::NegInt => (6, Vec::new()),
        Instr::NotBool => (7, Vec::new()),
        Instr::Add => (8, Vec::new()),
        Instr::SubInt => (9, Vec::new()),
        Instr::MulInt => (10, Vec::new()),
        Instr::DivInt => (11, Vec::new()),
        Instr::ModInt => (12, Vec::new()),
        Instr::Eq => (13, Vec::new()),
        Instr::Neq => (14, Vec::new()),
        Instr::LtInt => (15, Vec::new()),
        Instr::LteInt => (16, Vec::new()),
        Instr::GtInt => (17, Vec::new()),
        Instr::GteInt => (18, Vec::new()),
        Instr::AndBool => (19, Vec::new()),
        Instr::OrBool => (20, Vec::new()),
        Instr::Jump(x0) => (21, vec![FieldRef::Slot(*x0)]),
        Instr::JumpIfFalse(x0) => (22, vec![FieldRef::Slot(*x0)]),
        Instr::JumpIfTrue(x0) => (23, vec![FieldRef::Slot(*x0)]),
        Instr::JumpIfLocalLtConst { slot, rhs, target } => (46, vec![FieldRef::Slot(*slot), FieldRef::Int(*rhs), FieldRef::Slot(*target)]),
        Instr::Call { name, argc } => (24, vec![FieldRef::Text(name), FieldRef::Slot(*argc)]),
        Instr::CallIdx { idx, argc } => (38, vec![FieldRef::Slot(*idx), FieldRef::Slot(*argc)]),
        Instr::CallIdxAddConst(x0) => (47, vec![FieldRef::Int(*x0)]),
        Instr::CallIdxStructFieldAdd(x0) => (51, vec![FieldRef::Slot(*x0)]),
        Instr::CallValue { argc } => (37, vec![FieldRef::Slot(*argc)]),
        Instr::CallMethod { name, argc } => (36, vec![FieldRef::Text(name), FieldRef::Slot(*argc)]),
        Instr::CallMethodId { id, argc } => (43, vec![FieldRef::Slot(*id), FieldRef::Slot(*argc)]),
        Instr::CallBuiltin { package, name, argc } => (25, vec![FieldRef::Text(package), FieldRef::Text(name), FieldRef::Slot(*argc)]),
        Instr::CallBuiltinId { id, argc } => (41, vec![FieldRef::Half(*id), FieldRef::Slot(*argc)]),
        Instr::StrLen => (52, Vec::new()),
        Instr::StrLenLocal(x0) => (56, vec![FieldRef::Slot(*x0)]),
        Instr::StrIndexOfConst(x0) => (53, vec![FieldRef::Text(x0)]),
        Instr::StrIndexOfLocalConst { slot, needle } => (57, vec![FieldRef::Slot(*slot), FieldRef::Text(needle)]),
        Instr::StrSliceConst { start, end } => (54, vec![FieldRef::Int(*start), FieldRef::Int(*end)]),
        Instr::StrSliceLocalConst { slot, start, end } => (58, vec![FieldRef::Slot(*slot), FieldRef::Int(*start), FieldRef::Int(*end)]),
        Instr::StrContainsConst(x0) => (55, vec![FieldRef::Text(x0)]),
        Instr::StrContainsLocalConst { slot, needle } => (59, vec![FieldRef::Slot(*slot), FieldRef::Text(needle)]),
        Instr::MakeArray(x0) => (26, vec![FieldRef::Slot(*x0)]),
        Instr::MakeArrayRepeat(x0) => (27, vec![FieldRef::Slot(*x0)]),
        Instr::ArrayGet => (28, Vec::new()),
        Instr::ArrayGetLocal(x0) => (60, vec![FieldRef::Slot(*x0)]),
        Instr::ArraySet => (29, Vec::new()),
        Instr::ArraySetLocal(x0) => (45, vec![FieldRef::Slot(*x0)]),
        Instr::ArrayIncLocal(x0) => (50, vec![FieldRef::Slot(*x0)]),
        Instr::ArraySetChain(x0) => (30, vec![FieldRef::Slot(*x0)]),
        Instr::ArrayLen => (31, Vec::new()),
        Instr::MakeStruct { name, fields } => (33, vec![FieldRef::Text(name), FieldRef::Texts(fields)]),
        Instr::MakeStructId { id } => (44, vec![FieldRef::Slot(*id)]),
        Instr::StructGet(x0) => (34, vec![FieldRef::Text(x0)]),
        Instr::StructGetLocalSlot { slot, field_slot } => (64, vec![FieldRef::Slot(*slot), FieldRef::Slot(*field_slot)]),
        Instr::StructGetSlot(x0) => (39, vec![FieldRef::Slot(*x0)]),
        Instr::StructSetPath(x0) => (35, vec![FieldRef::Texts(x0)]),
        Instr::StructSetPathSlots(x0) => (40, vec![FieldRef::Slots(x0)]),
        Instr::Return => (32, Vec::new()),
    }
}

/// Appends the bytes of an operand whose value, if any, is storable.
fn write_field(out: &mut Vec<u8>, f: &FieldRef)
    requires
        field_storable(field_ref_view(*f)),
    ensures
        final(out)@ == old(out)@ + enc_field(field_ref_view(*f)),
{
    match f {
        FieldRef::Slot(s) => write_u32(out, *s as u32),
        FieldRef::Int(v) => write_i64(out, *v),
        FieldRef::Half(h) => write_u32(out, *h as u32),
        FieldRef::Op(op) => write_u8(out, match op {
            IntLocalConstOp::Add => 0,
            IntLocalConstOp::Sub => 1,
            IntLocalConstOp::Mul => 2,
            IntLocalConstOp::Div => 3,
            IntLocalConstOp::Mod => 4,
        }),
        FieldRef::Text(s) => write_str(out, s.as_str()),
        FieldRef::Texts(ts) => {
            write_u32(out, ts.len() as u32);
            write_texts(out, ts);
            assert(texts(ts@).len() == ts@.len());
        },
        FieldRef::Slots(ss) => {
            write_u32(out, ss.len() as u32);
            write_slots(out, ss);
        },
        FieldRef::Val(v) => encode_value(v, out),
    }
    assert(final(out)@ =~= old(out)@ + enc_field(field_ref_view(*f)));
}

/// Appends the bytes of a storable instruction.
pub fn encode_instr(i: &Instr, out: &mut Vec<u8>)
    requires
        instr_storable(*i),
    ensures
        final(out)@ == old(out)@ + enc_instr(*i),
{
    let ghost parts = instr_parts(*i).1;
    let (tag, fields) = instr_operands(i);
    write_u8(out, tag);
    let ghost start = out@;
    let mut k: usize = 0;
    while k < fields.len()
        invariant
            k <= fields@.len(),
            fields@.len() == parts.len(),
            parts == instr_parts(*i).1,
            instr_storable(*i),
            forall|j: int| 0 <= j < fields@.len() ==> field_ref_view(#[trigger] fields@[j]) == parts[j],
            out@ == start + enc_fields(parts.take(k as int)),
        decreases fields@.len() - k,
    {
        assert(field_storable(parts[k as int]));
        write_field(out, &fields[k]);
        proof {
            assert(parts.take(k + 1).drop_last() =~= parts.take(k as int));
        }
        k += 1;
    }
    assert(parts.take(k as int) =~= parts);
    assert(final(out)@ =~= old(out)@ + enc_instr(*i));
}

/// Instructions one after another.
pub open spec fn enc_code(code: Seq<(u8, Seq<FieldV>)>) -> Seq<u8>
    decreases code.len(),
{
    if code.len() == 0 {
        seq![]
    } else {
        enc_code(code.drop_last()) + enc_parts(code.last())
    }
}

/// The bytes of a struct shape: its name, then its field names, counted.
pub open spec fn enc_shape(s: ShapeV) -> Seq<u8> {
    str_le(s.name) + u32_le(s.field_names.len() as u32) + enc_texts(s.field_names)
}

/// Struct shapes one after another.
pub open spec fn enc_shapes(ss: Seq<ShapeV>) -> Seq<u8>
    decreases ss.len(),
{
    if ss.len() == 0 {
        seq![]
    } else {
        enc_shapes(ss.drop_last()) + enc_shape(ss.last())
    }
}

/// The bytes of a function: its name, its numbers of locals and parameters,
/// then its code, counted.
pub open spec fn enc_chunk(c: ChunkV) -> Seq<u8> {
    str_le(c.name) + u32_le(c.locals_count as u32) + u32_le(c.param_count as u32) + u32_le(c.code.len() as u32)
        + enc_code(c.code)
}

/// Functions one after another.
pub open spec fn enc_chunks(cs: Seq<ChunkV>) -> Seq<u8>
    decreases cs.len(),
{
    if cs.len() == 0 {
        seq![]
    } else {
        enc_chunks(cs.drop_last()) + enc_chunk(cs.last())
    }
}

/// The bytes of a module whose functions come in the order of `m.functions`:
/// the magic header `SKBC`, version 4, the number of functions, the method
/// names, the struct shapes, then the functions; each count in four bytes.
pub open spec fn enc_module(m: ModuleV) -> Seq<u8> {
    magic() + u32_le(4) + u32_le(m.functions.len() as u32) + u32_le(m.method_names.len() as u32)
        + enc_texts(m.method_names) + u32_le(m.struct_shapes.len() as u32) + enc_shapes(m.struct_shapes)
        + enc_chunks(m.functions)
}

/// The names of the functions of `m`.
pub open spec fn function_names(m: BytecodeModule) -> Seq<String> {
    m.functions@.map_values(|c: FunctionChunk| c.name)
}

/// The view of `m` with its functions taken in the order `order`.
pub open spec fn ordered_view(m: BytecodeModule, order: Seq<usize>) -> ModuleV {
    ModuleV {
        functions: order.map_values(|t: usize| chunk_view(m.functions@[t as int])),
        method_names: texts(m.method_names@),
        struct_shapes: m.struct_shapes@.map_values(|s: StructShape| shape_view(s)),
    }
}

/// Every instruction of every function of `m` is storable.
pub open spec fn module_storable(m: BytecodeModule) -> bool {
    forall|k: int, j: int| 0 <= k < m.functions@.len() && 0 <= j < m.functions@[k].code@.len()
        ==> instr_storable(#[trigger] m.functions@[k].code@[j])
}

/// Appends the bytes of a function whose instructions are storable.
fn encode_chunk(c: &FunctionChunk, out: &mut Vec<u8>)
    requires
        forall|j: int| 0 <= j < c.code@.len() ==> instr_storable(#[trigger] c.code@[j]),
    ensures
        final(out)@ == old(out)@ + enc_chunk(chunk_view(*c)),
{
    write_str(out, c.name.as_str());
    write_u32(out, c.locals_count as u32);
    write_u32(out, c.param_count as u32);
    write_u32(out, c.code.len() as u32);
    let ghost cv = code_view(c.code@);
    let ghost start = out@;
    let mut j: usize = 0;
    while j < c.code.len()
        invariant
            j <= c.code@.len(),
            cv == code_view(c.code@),
            forall|t: int| 0 <= t < c.code@.len() ==> instr_storable(#[trigger] c.code@[t]),
            out@ == start + enc_code(cv.take(j as int)),
        decreases c.code@.len() - j,
    {
        encode_instr(&c.code[j], out);
        proof {
            assert(cv.take(j + 1).drop_last() =~= cv.take(j as int));
            assert(cv.take(j + 1).last() == instr_parts(c.code@[j as int]));
        }
        j += 1;
    }
    assert(cv.take(j as int) =~= cv);
    assert(final(out)@ =~= old(out)@ + enc_chunk(chunk_view(*c)));
}

/// Appends the bytes of a struct shape.
fn encode_shape(s: &StructShape, out: &mut Vec<u8>)
    ensures
        final(out)@ == old(out)@ + enc_shape(shape_view(*s)),
{
    write_str(out, s.name.as_str());
    write_u32(out, s.field_names.len() as u32);
    write_texts(out, &s.field_names);
    assert(final(out)@ =~= old(out)@ + enc_shape(shape_view(*s)));
}

impl BytecodeModule {
    /// The bytes of the module, its functions taken in the order of their
    /// names.
    pub fn to_bytes(&self) -> (r: Vec<u8>)
        requires
            module_storable(*self),
        ensures
            exists|order: Seq<usize>| #[trigger] is_sorted_order(order, function_names(*self))
                && r@ == enc_module(ordered_view(*self, order)),
    {
        let mut out: Vec<u8> = Vec::new();
        out.push(83);
        out.push(75);
        out.push(66);
        out.push(67);
        assert(out@ =~= magic());
        write_u32(&mut out, 4);
        write_u32(&mut out, self.functions.len() as u32);
        write_u32(&mut out, self.method_names.len() as u32);
        write_texts(&mut out, &self.method_names);
        write_u32(&mut out, self.struct_shapes.len() as u32);
        let ghost sv = self.struct_shapes@.map_values(|s: StructShape| shape_view(s));
        let ghost start = out@;
        let mut k: usize = 0;
        while k < self.struct_shapes.len()
            invariant
                k <= self.struct_shapes@.len(),
                sv == self.struct_shapes@.map_values(|s: StructShape| shape_view(s)),
                out@ == start + enc_shapes(sv.take(k as int)),
            decreases self.struct_shapes@.len() - k,
        {
            encode_shape(&self.struct_shapes[k], &mut out);
            proof {
                assert(sv.take(k + 1).drop_last() =~= sv.take(k as int));
            }
            k += 1;
        }
        assert(sv.take(k as int) =~= sv);
        let ghost keys = self.functions@.map_values(|c: FunctionChunk| c.name);
        let mut names: Vec<String> = Vec::new();
        let mut k: usize = 0;
        while k < self.functions.len()
            invariant
                k <= self.functions@.len(),
                keys == self.functions@.map_values(|c: FunctionChunk| c.name),
                names@.len() == k,
                forall|t: int| 0 <= t < k ==> (#[trigger] names@[t])@ == keys[t]@,
            decreases self.functions@.len() - k,
        {
            names.push(self.functions[k].name.clone());
            k += 1;
        }
        let order = sorted_positions(&names);
        proof {
            assert forall|t: int| 0 <= t < names@.len() implies #[trigger] crate::text::text_key(names@, t) == crate::text::text_key(keys, t) by {}
        }
        let ghost fv = order@.map_values(|t: usize| chunk_view(self.functions@[t as int]));
        let ghost mid = out@;
        let mut t: usize = 0;
        while t < order.len()
            invariant
                t <= order@.len(),
                order@.len() == self.functions@.len(),
                forall|u: int| 0 <= u < order@.len() ==> (#[trigger] order@[u]) < self.functions@.len(),
                module_storable(*self),
                fv == order@.map_values(|t: usize| chunk_view(self.functions@[t as int])),
                out@ == mid + enc_chunks(fv.take(t as int)),
            decreases order@.len() - t,
        {
            let c = &self.functions[order[t]];
            proof {
                assert forall|j: int| 0 <= j < c.code@.len() implies instr_storable(#[trigger] c.code@[j]) by {
                    assert(instr_storable(self.functions@[order@[t as int] as int].code@[j]));
                }
            }
            encode_chunk(c, &mut out);
            proof {
                assert(fv.take(t + 1).drop_last() =~= fv.take(t as int));
            }
            t += 1;
        }
        assert(fv.take(t as int) =~= fv);
        proof {
            assert(is_sorted_order(order@, keys));
            assert(keys == function_names(*self));
            assert(is_sorted_order(order@, function_names(*self)));
            assert(out@ =~= enc_module(ordered_view(*self, order@)));
        }
        out
    }
}

} // verus!
