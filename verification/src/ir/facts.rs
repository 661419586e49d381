//! What instructions define and read, shared by the optimizer passes.

use vstd::prelude::*;
use vstd::hash_set::HashSetWithView;

use crate::ir::{GlobalId, Instr, LocalId, Operand, TempId, Terminator};

verus! {

broadcast use vstd::std_specs::hash::group_hash_axioms;

/// The temp an instruction writes, if any.
pub open spec fn spec_instr_dst(instr: Instr) -> Option<TempId> {
    match instr {
        Instr::Const { dst, .. } => Some(dst),
        Instr::Copy { dst, .. } => Some(dst),
        Instr::Unary { dst, .. } => Some(dst),
        Instr::Binary { dst, .. } => Some(dst),
        Instr::Compare { dst, .. } => Some(dst),
        Instr::Logic { dst, .. } => Some(dst),
        Instr::LoadGlobal { dst, .. } => Some(dst),
        Instr::LoadLocal { dst, .. } => Some(dst),
        Instr::MakeArray { dst, .. } => Some(dst),
        Instr::MakeArrayRepeat { dst, .. } => Some(dst),
        Instr::VecNew { dst, .. } => Some(dst),
        Instr::VecLen { dst, .. } => Some(dst),
        Instr::ArrayGet { dst, .. } => Some(dst),
        Instr::VecGet { dst, .. } => Some(dst),
        Instr::VecDelete { dst, .. } => Some(dst),
        Instr::MakeStruct { dst, .. } => Some(dst),
        Instr::StructGet { dst, .. } => Some(dst),
        Instr::MakeClosure { dst, .. } => Some(dst),
        Instr::CallDirect { dst, .. } => dst,
        Instr::CallIndirect { dst, .. } => dst,
        Instr::CallBuiltin { dst, .. } => dst,
        Instr::StoreGlobal { .. } => None,
        Instr::StoreLocal { .. } => None,
        Instr::ArraySet { .. } => None,
        Instr::VecPush { .. } => None,
        Instr::VecSet { .. } => None,
        Instr::StructSet { .. } => None,
    }
}

/// Returns the temp an instruction writes, if any.
pub fn instr_dst(instr: &Instr) -> (r: Option<TempId>)
    ensures
        r == spec_instr_dst(*instr),
{
    match instr {
        Instr::Const { dst, .. }
        | Instr::Copy { dst, .. }
        | Instr::Unary { dst, .. }
        | Instr::Binary { dst, .. }
        | Instr::Compare { dst, .. }
        | Instr::Logic { dst, .. }
        | Instr::LoadGlobal { dst, .. }
        | Instr::LoadLocal { dst, .. }
        | Instr::MakeArray { dst, .. }
        | Instr::MakeArrayRepeat { dst, .. }
        | Instr::VecNew { dst, .. }
        | Instr::VecLen { dst, .. }
        | Instr::ArrayGet { dst, .. }
        | Instr::VecGet { dst, .. }
        | Instr::VecDelete { dst, .. }
        | Instr::MakeStruct { dst, .. }
        | Instr::StructGet { dst, .. }
        | Instr::MakeClosure { dst, .. } => Some(*dst),
        Instr::CallDirect { dst, .. }
        | Instr::CallIndirect { dst, .. }
        | Instr::CallBuiltin { dst, .. } => *dst,
        Instr::StoreGlobal { .. }
        | Instr::StoreLocal { .. }
        | Instr::ArraySet { .. }
        | Instr::VecPush { .. }
        | Instr::VecSet { .. }
        | Instr::StructSet { .. } => None,
    }
}

/// An instruction that has no effect besides writing its destination temp.
pub open spec fn spec_is_pure(instr: Instr) -> bool {
    match instr {
        Instr::Const { .. } | Instr::Copy { .. } | Instr::Unary { .. } | Instr::Binary { .. }
        | Instr::Compare { .. } | Instr::Logic { .. } | Instr::LoadGlobal { .. }
        | Instr::LoadLocal { .. } | Instr::MakeArray { .. } | Instr::MakeArrayRepeat { .. }
        | Instr::VecNew { .. } | Instr::VecLen { .. } | Instr::ArrayGet { .. }
        | Instr::VecGet { .. } | Instr::VecDelete { .. } | Instr::MakeStruct { .. }
        | Instr::StructGet { .. } | Instr::MakeClosure { .. } => true,
        _ => false,
    }
}

/// Decides `spec_is_pure`.
pub fn is_pure(instr: &Instr) -> (r: bool)
    ensures
        r == spec_is_pure(*instr),
{
    match instr {
        Instr::Const { .. } | Instr::Copy { .. } | Instr::Unary { .. } | Instr::Binary { .. }
        | Instr::Compare { .. } | Instr::Logic { .. } | Instr::LoadGlobal { .. }
        | Instr::LoadLocal { .. } | Instr::MakeArray { .. } | Instr::MakeArrayRepeat { .. }
        | Instr::VecNew { .. } | Instr::VecLen { .. } | Instr::ArrayGet { .. }
        | Instr::VecGet { .. } | Instr::VecDelete { .. } | Instr::MakeStruct { .. }
        | Instr::StructGet { .. } | Instr::MakeClosure { .. } => true,
        _ => false,
    }
}

/// The operands whose values the optimizer treats as read by an instruction, in
/// the order it visits them. The vector operand of `VecPush` is not among them.
pub open spec fn read_operands(instr: Instr) -> Seq<Operand> {
    match instr {
        Instr::Copy { src, .. } => seq![src],
        Instr::Unary { operand, .. } => seq![operand],
        Instr::Binary { left, right, .. } => seq![left, right],
        Instr::Compare { left, right, .. } => seq![left, right],
        Instr::Logic { left, right, .. } => seq![left, right],
        Instr::StoreGlobal { value, .. } => seq![value],
        Instr::StoreLocal { value, .. } => seq![value],
        Instr::MakeArrayRepeat { value, .. } => seq![value],
        Instr::VecPush { value, .. } => seq![value],
        Instr::MakeArray { items, .. } => items@,
        Instr::VecLen { vec, .. } => seq![vec],
        Instr::ArrayGet { array, index, .. } => seq![array, index],
        Instr::VecGet { vec, index, .. } => seq![vec, index],
        Instr::ArraySet { array, index, value, .. } => seq![array, index, value],
        Instr::VecSet { vec, index, value, .. } => seq![vec, index, value],
        Instr::VecDelete { vec, index, .. } => seq![vec, index],
        Instr::MakeStruct { fields, .. } => fields@,
        Instr::StructGet { base, .. } => seq![base],
        Instr::StructSet { base, value, .. } => seq![base, value],
        Instr::CallDirect { args, .. } => args@,
        Instr::CallBuiltin { args, .. } => args@,
        Instr::CallIndirect { callee, args, .. } => seq![callee] + args@,
        _ => seq![],
    }
}

/// The operands a terminator reads.
pub open spec fn terminator_reads(term: Terminator) -> Seq<Operand> {
    match term {
        Terminator::Branch(b) => seq![b.cond],
        Terminator::Return(Some(v)) => seq![v],
        _ => seq![],
    }
}

/// `live` with the ids of the temps among `ops` added.
pub open spec fn add_temps(live: Set<usize>, ops: Seq<Operand>) -> Set<usize>
    decreases ops.len(),
{
    if ops.len() == 0 {
        live
    } else {
        let s = add_temps(live, ops.drop_last());
        match ops.last() {
            Operand::Temp(t) => s.insert(t.0),
            _ => s,
        }
    }
}

/// Adding the temps of two operand lists one after the other adds those of their concatenation.
pub proof fn lemma_add_temps_concat(live: Set<usize>, a: Seq<Operand>, b: Seq<Operand>)
    ensures
        add_temps(add_temps(live, a), b) == add_temps(live, a + b),
    decreases b.len(),
{
    if b.len() == 0 {
        assert(a + b =~= a);
    } else {
        lemma_add_temps_concat(live, a, b.drop_last());
        assert((a + b).drop_last() =~= a + b.drop_last());
        assert((a + b).last() == b.last());
    }
}

/// Adds to `live` the id of `op` if it is a temp.
pub fn add_operand_temp(op: &Operand, live: &mut HashSetWithView<usize>)
    ensures
        final(live)@ == add_temps(old(live)@, seq![*op]),
{
    proof {
        assert(seq![*op].drop_last() =~= Seq::<Operand>::empty());
        assert(add_temps(old(live)@, Seq::<Operand>::empty()) == old(live)@);
    }
    if let Operand::Temp(id) = op {
        live.insert(id.0);
    }
}

/// Adds to `live` the ids of the temps among `ops`.
pub fn add_operand_temps(ops: &Vec<Operand>, live: &mut HashSetWithView<usize>)
    ensures
        final(live)@ == add_temps(old(live)@, ops@),
{
    let mut k: usize = 0;
    while k < ops.len()
        invariant
            k <= ops@.len(),
            live@ == add_temps(old(live)@, ops@.take(k as int)),
        decreases ops@.len() - k,
    {
        proof {
            assert(ops@.take(k + 1).drop_last() =~= ops@.take(k as int));
        }
        if let Operand::Temp(id) = &ops[k] {
            live.insert(id.0);
        }
        k += 1;
    }
    proof {
        assert(ops@.take(k as int) =~= ops@);
    }
}

/// Adds to `live` the temps that `instr` reads.
pub fn collect_instr_uses(instr: &Instr, live: &mut HashSetWithView<usize>)
    ensures
        final(live)@ == add_temps(old(live)@, read_operands(*instr)),
{
    match instr {
        Instr::Copy { src, .. } | Instr::Unary { operand: src, .. } => add_operand_temp(src, live),
        Instr::Binary { left, right, .. }
        | Instr::Compare { left, right, .. }
        | Instr::Logic { left, right, .. } => {
            add_operand_temp(left, live);
            add_operand_temp(right, live);
            proof {
                lemma_add_temps_concat(old(live)@, seq![*left], seq![*right]);
                assert(seq![*left] + seq![*right] =~= seq![*left, *right]);
            }
        },
        Instr::StoreGlobal { value, .. }
        | Instr::StoreLocal { value, .. }
        | Instr::MakeArrayRepeat { value, .. }
        | Instr::VecPush { value, .. } => add_operand_temp(value, live),
        Instr::MakeArray { items, .. } => add_operand_temps(items, live),
        Instr::VecLen { vec, .. } => add_operand_temp(vec, live),
        Instr::ArrayGet { array, index, .. } | Instr::VecGet { vec: array, index, .. }
        | Instr::VecDelete { vec: array, index, .. } => {
            add_operand_temp(array, live);
            add_operand_temp(index, live);
            proof {
                lemma_add_temps_concat(old(live)@, seq![*array], seq![*index]);
                assert(seq![*array] + seq![*index] =~= seq![*array, *index]);
            }
        },
        Instr::ArraySet { array, index, value, .. }
        | Instr::VecSet { vec: array, index, value, .. } => {
            let ghost l0 = live@;
            add_operand_temp(array, live);
            add_operand_temp(index, live);
            add_operand_temp(value, live);
            proof {
                lemma_add_temps_concat(l0, seq![*array], seq![*index]);
                lemma_add_temps_concat(l0, seq![*array] + seq![*index], seq![*value]);
                assert(seq![*array] + seq![*index] + seq![*value] =~= seq![*array, *index, *value]);
            }
        },
        Instr::MakeStruct { fields, .. } => add_operand_temps(fields, live),
        Instr::StructGet { base, .. } => add_operand_temp(base, live),
        Instr::StructSet { base, value, .. } => {
            add_operand_temp(base, live);
            add_operand_temp(value, live);
            proof {
                lemma_add_temps_concat(old(live)@, seq![*base], seq![*value]);
                assert(seq![*base] + seq![*value] =~= seq![*base, *value]);
            }
        },
        Instr::CallDirect { args, .. } | Instr::CallBuiltin { args, .. } => add_operand_temps(args, live),
        Instr::CallIndirect { callee, args, .. } => {
            add_operand_temp(callee, live);
            add_operand_temps(args, live);
            proof {
                lemma_add_temps_concat(old(live)@, seq![*callee], args@);
            }
        },
        Instr::Const { .. }
        | Instr::LoadGlobal { .. }
        | Instr::LoadLocal { .. }
        | Instr::VecNew { .. }
        | Instr::MakeClosure { .. } => {},
    }
}

/// Adds to `live` the temps that `term` reads.
pub fn collect_terminator_uses(term: &Terminator, live: &mut HashSetWithView<usize>)
    ensures
        final(live)@ == add_temps(old(live)@, terminator_reads(*term)),
{
    match term {
        Terminator::Branch(branch) => add_operand_temp(&branch.cond, live),
        Terminator::Return(Some(value)) => add_operand_temp(value, live),
        Terminator::Jump(_) | Terminator::Return(None) | Terminator::Panic { .. }
        | Terminator::Unreachable => {},
    }
}

} // verus!
