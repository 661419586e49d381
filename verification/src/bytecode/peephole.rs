//! Rewrites of a compiled module: calls by name become calls by index, calls
//! of trivial functions are fused, function values become indexes, and jumps
//! to the next instruction are dropped.

use vstd::prelude::*;

use crate::bytecode::codec::lemma_values_view_take;
use crate::bytecode::{instr_parts, value_view, values_view, BytecodeModule, FieldV, FunctionChunk, Instr, StructShape, Value, ValueV};
use crate::codegen::texts;
use crate::ir::consts::{bytes_less, bytes_lt, utf8};
use crate::text::text_eq;

verus! {

broadcast use vstd::std_specs::vec::group_vec_axioms;

/// The names of functions.
pub open spec fn names_of(fs: Seq<FunctionChunk>) -> Seq<Seq<char>> {
    fs.map_values(|c: FunctionChunk| c.name@)
}

/// The number of the texts `names` below `n` (bytewise on their UTF-8 form,
/// as Rust orders strings): where the names are distinct and `n` is one of
/// them, its place in their sorted order.
pub open spec fn rank(names: Seq<Seq<char>>, n: Seq<char>) -> nat
    decreases names.len(),
{
    if names.len() == 0 {
        0
    } else {
        rank(names.drop_last(), n) + if bytes_less(utf8(names.last()), utf8(n)) { 1nat } else { 0nat }
    }
}

/// No more texts are below `n` than there are texts.
proof fn lemma_rank_bound(names: Seq<Seq<char>>, n: Seq<char>)
    ensures
        rank(names, n) <= names.len(),
    decreases names.len(),
{
    if names.len() > 0 {
        lemma_rank_bound(names.drop_last(), n);
    }
}

/// The index that a call of `n` takes: its rank, where `n` names a function.
pub open spec fn call_index(names: Seq<Seq<char>>, n: Seq<char>) -> Option<usize> {
    if names.contains(n) {
        Some(rank(names, n) as usize)
    } else {
        None
    }
}

/// The index of the function named `name` among `names` (see `call_index`).
fn function_index(names: &Vec<String>, name: &str) -> (r: Option<usize>)
    ensures
        r == call_index(names@.map_values(|s: String| s@), name@),
{
    let ghost ns = names@.map_values(|s: String| s@);
    let mut count: usize = 0;
    let mut found = false;
    let mut k: usize = 0;
    while k < names.len()
        invariant
            k <= names@.len(),
            ns == names@.map_values(|s: String| s@),
            count <= k,
            count == rank(ns.take(k as int), name@),
            found == ns.take(k as int).contains(name@),
        decreases names@.len() - k,
    {
        proof {
            assert(ns.take(k + 1).drop_last() =~= ns.take(k as int));
            assert(ns.take(k + 1).last() == names@[k as int]@);
        }
        if text_eq(names[k].as_str(), name) {
            found = true;
        }
        if bytes_lt(names[k].as_str().as_bytes(), name.as_bytes()) {
            count += 1;
        }
        proof {
            if ns.take(k as int).contains(name@) {
                let t = choose|t: int| 0 <= t < ns.take(k as int).len() && #[trigger] ns.take(k as int)[t] == name@;
                assert(ns.take(k + 1)[t] == name@);
            }
            if ns.take(k + 1).contains(name@) {
                let t = choose|t: int| 0 <= t < ns.take(k + 1).len() && #[trigger] ns.take(k + 1)[t] == name@;
                if t < k {
                    assert(ns.take(k as int)[t] == name@);
                }
            }
            if names@[k as int]@ == name@ {
                assert(ns.take(k + 1)[k as int] == name@);
            }
        }
        k += 1;
    }
    assert(ns.take(k as int) =~= ns);
    if found {
        Some(count)
    } else {
        None
    }
}

/// The names of the module's functions, copied.
fn function_names(module: &BytecodeModule) -> (r: Vec<String>)
    ensures
        r@.map_values(|s: String| s@) == names_of(module.functions@),
{
    let mut names: Vec<String> = Vec::new();
    let mut k: usize = 0;
    while k < module.functions.len()
        invariant
            k <= module.functions@.len(),
            names@.len() == k,
            forall|t: int| 0 <= t < k ==> (#[trigger] names@[t])@ == module.functions@[t].name@,
        decreases module.functions@.len() - k,
    {
        names.push(module.functions[k].name.clone());
        k += 1;
    }
    assert(names@.map_values(|s: String| s@) =~= names_of(module.functions@));
    names
}

/// A call by name of a function of the module, as a call by its index.
pub open spec fn with_call_index(i: Instr, names: Seq<Seq<char>>) -> Instr {
    match i {
        Instr::Call { name, argc } => match call_index(names, name@) {
            Some(idx) => Instr::CallIdx { idx, argc },
            None => i,
        },
        _ => i,
    }
}

/// `new` is `old` with each instruction `i` of each function replaced by
/// `f(i)`; names, counts, method names and struct shapes stay.
pub open spec fn code_rewritten(old: BytecodeModule, new: BytecodeModule, f: spec_fn(Instr) -> Instr) -> bool {
    &&& new.functions@.len() == old.functions@.len()
    &&& new.method_names == old.method_names
    &&& new.struct_shapes == old.struct_shapes
    &&& forall|k: int| 0 <= k < old.functions@.len() ==> {
        &&& (#[trigger] new.functions@[k]).name == old.functions@[k].name
        &&& new.functions@[k].locals_count == old.functions@[k].locals_count
        &&& new.functions@[k].param_count == old.functions@[k].param_count
        &&& new.functions@[k].code@.len() == old.functions@[k].code@.len()
        &&& forall|j: int| 0 <= j < old.functions@[k].code@.len() ==> #[trigger] new.functions@[k].code@[j] == f(old.functions@[k].code@[j])
    }
}

/// Turns each call by name of a function of the module into a call by the
/// function's index: its place among the functions' names in sorted order.
pub fn rewrite_direct_calls_to_indexes(module: &mut BytecodeModule)
    ensures
        code_rewritten(*old(module), *final(module), |i: Instr| with_call_index(i, names_of(old(module).functions@))),
{
    let names = function_names(module);
    let ghost ns = names_of(module.functions@);
    let ghost start = *module;
    let mut k: usize = 0;
    while k < module.functions.len()
        invariant
            k <= module.functions@.len(),
            names@.map_values(|s: String| s@) == ns,
            ns == names_of(start.functions@),
            module.functions@.len() == start.functions@.len(),
            module.method_names == start.method_names,
            module.struct_shapes == start.struct_shapes,
            forall|t: int| 0 <= t < module.functions@.len() ==> {
                &&& (#[trigger] module.functions@[t]).name == start.functions@[t].name
                &&& module.functions@[t].locals_count == start.functions@[t].locals_count
                &&& module.functions@[t].param_count == start.functions@[t].param_count
                &&& module.functions@[t].code@.len() == start.functions@[t].code@.len()
            },
            forall|t: int, j: int| 0 <= t < k && 0 <= j < start.functions@[t].code@.len()
                ==> #[trigger] module.functions@[t].code@[j] == with_call_index(start.functions@[t].code@[j], ns),
            forall|t: int, j: int| k <= t < module.functions@.len() && 0 <= j < start.functions@[t].code@.len()
                ==> #[trigger] module.functions@[t].code@[j] == start.functions@[t].code@[j],
        decreases module.functions@.len() - k,
    {
        let mut j: usize = 0;
        while j < module.functions[k].code.len()
            invariant
                k < module.functions@.len(),
                j <= module.functions@[k as int].code@.len(),
                names@.map_values(|s: String| s@) == ns,
                ns == names_of(start.functions@),
                module.functions@.len() == start.functions@.len(),
                module.method_names == start.method_names,
                module.struct_shapes == start.struct_shapes,
                forall|t: int| 0 <= t < module.functions@.len() ==> {
                    &&& (#[trigger] module.functions@[t]).name == start.functions@[t].name
                    &&& module.functions@[t].locals_count == start.functions@[t].locals_count
                    &&& module.functions@[t].param_count == start.functions@[t].param_count
                    &&& module.functions@[t].code@.len() == start.functions@[t].code@.len()
                },
                forall|t: int, i: int| 0 <= t < k && 0 <= i < start.functions@[t].code@.len()
                    ==> #[trigger] module.functions@[t].code@[i] == with_call_index(start.functions@[t].code@[i], ns),
                forall|t: int, i: int| k < t < module.functions@.len() && 0 <= i < start.functions@[t].code@.len()
                    ==> #[trigger] module.functions@[t].code@[i] == start.functions@[t].code@[i],
                forall|i: int| 0 <= i < j ==> #[trigger] module.functions@[k as int].code@[i] == with_call_index(start.functions@[k as int].code@[i], ns),
                forall|i: int| j <= i < start.functions@[k as int].code@.len() ==> #[trigger] module.functions@[k as int].code@[i] == start.functions@[k as int].code@[i],
            decreases module.functions@[k as int].code@.len() - j,
        {
            let replacement = match &module.functions[k].code[j] {
                Instr::Call { name, argc } => match function_index(&names, name.as_str()) {
                    Some(idx) => Some(Instr::CallIdx { idx, argc: *argc }),
                    None => None,
                },
                _ => None,
            };
            match replacement {
                Some(x) => {
                    module.functions[k].code.set(j, x);
                },
                None => {},
            }
            j += 1;
        }
        k += 1;
    }
}

/// Instruction `i` of `code` is a jump to the instruction after it.
pub open spec fn jumps_to_next(code: Seq<Instr>, i: int) -> bool {
    code[i] == Instr::Jump((i + 1) as usize)
}

/// Some instruction of `code` jumps to the one after it.
pub open spec fn has_jump_to_next(code: Seq<Instr>) -> bool {
    exists|i: int| 0 <= i < code.len() && #[trigger] jumps_to_next(code, i)
}

/// The instructions of `code` before position `t` that stay.
pub open spec fn kept_before(code: Seq<Instr>, t: int) -> nat
    decreases t,
{
    if t <= 0 {
        0
    } else {
        kept_before(code, t - 1) + if jumps_to_next(code, t - 1) { 0nat } else { 1nat }
    }
}

/// A jump aimed where its target lands once the jumps to the next
/// instruction are gone: at the first instruction that stays from the old
/// target on.
pub open spec fn retarget(i: Instr, code: Seq<Instr>) -> Instr {
    match i {
        Instr::Jump(t) => Instr::Jump(kept_before(code, t as int) as usize),
        Instr::JumpIfFalse(t) => Instr::JumpIfFalse(kept_before(code, t as int) as usize),
        Instr::JumpIfTrue(t) => Instr::JumpIfTrue(kept_before(code, t as int) as usize),
        _ => i,
    }
}

/// The first `n` instructions of `code` without the jumps to the next
/// instruction, the other jumps retargeted.
pub open spec fn without_next_jumps(code: Seq<Instr>, n: int) -> Seq<Instr>
    decreases n,
{
    if n <= 0 {
        seq![]
    } else {
        without_next_jumps(code, n - 1) + if jumps_to_next(code, n - 1) { seq![] } else { seq![retarget(code[n - 1], code)] }
    }
}

/// Every jump of `code` aims at most one past its end.
pub open spec fn targets_in_range(code: Seq<Instr>) -> bool {
    forall|i: int| 0 <= i < code.len() ==> match #[trigger] code[i] {
        Instr::Jump(t) => t <= code.len(),
        Instr::JumpIfFalse(t) => t <= code.len(),
        Instr::JumpIfTrue(t) => t <= code.len(),
        _ => true,
    }
}

/// The code of a function after its peephole pass: unchanged where no jump
/// aims at the next instruction, and otherwise without those jumps.
pub open spec fn peephole_code(code: Seq<Instr>) -> Seq<Instr> {
    if has_jump_to_next(code) {
        without_next_jumps(code, code.len() as int)
    } else {
        code
    }
}

/// At most `t` instructions stay before position `t`.
proof fn lemma_kept_before_bound(code: Seq<Instr>, t: int)
    ensures
        kept_before(code, t) <= if t < 0 { 0 } else { t },
    decreases t,
{
    if t > 0 {
        lemma_kept_before_bound(code, t - 1);
    }
}

/// Drops from a function's code each jump to the next instruction, aiming
/// every other jump at the place where its target lands. (Where a jump is
/// dropped, every jump must aim at most one past the end of the code.)
pub fn peephole_optimize_chunk(chunk: &mut FunctionChunk)
    requires
        has_jump_to_next(old(chunk).code@) ==> targets_in_range(old(chunk).code@),
    ensures
        final(chunk).name == old(chunk).name,
        final(chunk).locals_count == old(chunk).locals_count,
        final(chunk).param_count == old(chunk).param_count,
        final(chunk).code@ == peephole_code(old(chunk).code@),
{
    let ghost code0 = chunk.code@;
    let len = chunk.code.len();
    let mut remove: Vec<bool> = Vec::new();
    let mut any = false;
    let mut i: usize = 0;
    while i < len
        invariant
            len == code0.len(),
            chunk.code@ == code0,
            i <= len,
            remove@.len() == i,
            forall|t: int| 0 <= t < i ==> #[trigger] remove@[t] == jumps_to_next(code0, t),
            any == exists|t: int| 0 <= t < i && #[trigger] jumps_to_next(code0, t),
        decreases len - i,
    {
        let r = match &chunk.code[i] {
            Instr::Jump(t) => *t > 0 && *t - 1 == i,
            _ => false,
        };
        proof {
            assert(r == jumps_to_next(code0, i as int));
            if r {
                assert(jumps_to_next(code0, i as int));
            }
        }
        remove.push(r);
        any = any || r;
        i += 1;
    }
    if !any {
        return;
    }
    let mut next_kept: Vec<usize> = Vec::new();
    next_kept.push(0);
    let mut i: usize = 0;
    while i < len
        invariant
            len == code0.len(),
            i <= len,
            remove@.len() == len,
            forall|t: int| 0 <= t < len ==> #[trigger] remove@[t] == jumps_to_next(code0, t),
            next_kept@.len() == i + 1,
            forall|t: int| 0 <= t <= i ==> #[trigger] next_kept@[t] == kept_before(code0, t),
        decreases len - i,
    {
        proof {
            lemma_kept_before_bound(code0, i as int);
        }
        let here = next_kept[i];
        next_kept.push(if remove[i] { here } else { here + 1 });
        i += 1;
    }
    let mut kept: Vec<Instr> = Vec::new();
    let mut i: usize = 0;
    while i < len
        invariant
            len == code0.len(),
            chunk.code@.len() == len,
            chunk.name == old(chunk).name,
            chunk.locals_count == old(chunk).locals_count,
            chunk.param_count == old(chunk).param_count,
            i <= len,
            remove@.len() == len,
            forall|t: int| 0 <= t < len ==> #[trigger] remove@[t] == jumps_to_next(code0, t),
            next_kept@.len() == len + 1,
            forall|t: int| 0 <= t <= len ==> #[trigger] next_kept@[t] == kept_before(code0, t),
            targets_in_range(code0),
            forall|t: int| i <= t < len ==> #[trigger] chunk.code@[t] == code0[t],
            kept@ == without_next_jumps(code0, i as int),
        decreases len - i,
    {
        if !remove[i] {
            let mut x = Instr::Pop;
            std::mem::swap(&mut x, &mut chunk.code[i]);
            assert(x == code0[i as int]);
            let y = match x {
                Instr::Jump(t) => Instr::Jump(next_kept[t]),
                Instr::JumpIfFalse(t) => Instr::JumpIfFalse(next_kept[t]),
                Instr::JumpIfTrue(t) => Instr::JumpIfTrue(next_kept[t]),
                other => other,
            };
            kept.push(y);
        }
        proof {
            assert(kept@ =~= without_next_jumps(code0, i + 1));
        }
        i += 1;
    }
    chunk.code = kept;
}

/// Runs the peephole pass on every function of the module.
pub fn peephole_optimize_module(module: &mut BytecodeModule)
    requires
        forall|k: int| 0 <= k < old(module).functions@.len() ==> has_jump_to_next(#[trigger] old(module).functions@[k].code@)
            ==> targets_in_range(old(module).functions@[k].code@),
    ensures
        code_changed(*old(module), *final(module)),
{
    let ghost start = *module;
    let mut k: usize = 0;
    while k < module.functions.len()
        invariant
            k <= module.functions@.len(),
            module.functions@.len() == start.functions@.len(),
            module.method_names == start.method_names,
            module.struct_shapes == start.struct_shapes,
            forall|t: int| 0 <= t < start.functions@.len() ==> has_jump_to_next(#[trigger] start.functions@[t].code@)
                ==> targets_in_range(start.functions@[t].code@),
            forall|t: int| 0 <= t < module.functions@.len() ==> {
                &&& (#[trigger] module.functions@[t]).name == start.functions@[t].name
                &&& module.functions@[t].locals_count == start.functions@[t].locals_count
                &&& module.functions@[t].param_count == start.functions@[t].param_count
            },
            forall|t: int| 0 <= t < k ==> (#[trigger] module.functions@[t]).code@ == peephole_code(start.functions@[t].code@),
            forall|t: int| k <= t < module.functions@.len() ==> (#[trigger] module.functions@[t]).code@ == start.functions@[t].code@,
        decreases module.functions@.len() - k,
    {
        peephole_optimize_chunk(&mut module.functions[k]);
        k += 1;
    }
}

/// `new` is `old` after the peephole pass on each function.
pub open spec fn code_changed(old: BytecodeModule, new: BytecodeModule) -> bool {
    &&& new.functions@.len() == old.functions@.len()
    &&& new.method_names == old.method_names
    &&& new.struct_shapes == old.struct_shapes
    &&& forall|k: int| 0 <= k < old.functions@.len() ==> {
        &&& (#[trigger] new.functions@[k]).name == old.functions@[k].name
        &&& new.functions@[k].locals_count == old.functions@[k].locals_count
        &&& new.functions@[k].param_count == old.functions@[k].param_count
        &&& new.functions@[k].code@ == peephole_code(old.functions@[k].code@)
    }
}

/// What a call of a trivial function does: add a constant to its argument,
/// or add a field of its first argument to its second.
#[derive(Clone, Copy, PartialEq, Eq, Structural)]
pub enum TrivialDirectCall {
    AddConst(i64),
    StructFieldAdd(usize),
}

/// The trivial call a function's body amounts to, if any: one parameter and
/// `LoadLocal(0)`, `LoadConst(Int(rhs))` (either order), `Add`, `Return`;
/// or two parameters and field `f` of local 0 (as `LoadLocal(0)`,
/// `StructGetSlot(f)` or as `StructGetLocalSlot { slot: 0, field_slot: f }`)
/// added to `LoadLocal(1)`, then `Return`.
pub open spec fn trivial_pattern(c: FunctionChunk) -> Option<TrivialDirectCall> {
    let code = c.code@;
    let one = c.param_count == 1 && c.locals_count == 1;
    let two = c.param_count == 2 && c.locals_count == 2;
    if one && code.len() == 4 && code[0] == Instr::LoadLocal(0) && (code[1] matches Instr::LoadConst(Value::Int(_)))
        && code[2] == Instr::Add && code[3] == Instr::Return {
        match code[1] {
            Instr::LoadConst(Value::Int(rhs)) => Some(TrivialDirectCall::AddConst(rhs)),
            _ => None,
        }
    } else if one && code.len() == 4 && (code[0] matches Instr::LoadConst(Value::Int(_))) && code[1] == Instr::LoadLocal(0)
        && code[2] == Instr::Add && code[3] == Instr::Return {
        match code[0] {
            Instr::LoadConst(Value::Int(rhs)) => Some(TrivialDirectCall::AddConst(rhs)),
            _ => None,
        }
    } else if two && code.len() == 5 && code[0] == Instr::LoadLocal(0) && code[1] is StructGetSlot
        && code[2] == Instr::LoadLocal(1) && code[3] == Instr::Add && code[4] == Instr::Return {
        match code[1] {
            Instr::StructGetSlot(f) => Some(TrivialDirectCall::StructFieldAdd(f)),
            _ => None,
        }
    } else if two && code.len() == 4 && (code[0] matches Instr::StructGetLocalSlot { slot: 0, .. })
        && code[1] == Instr::LoadLocal(1) && code[2] == Instr::Add && code[3] == Instr::Return {
        match code[0] {
            Instr::StructGetLocalSlot { slot: _, field_slot } => Some(TrivialDirectCall::StructFieldAdd(field_slot)),
            _ => None,
        }
    } else {
        None
    }
}

/// The trivial call the function's body amounts to (see `trivial_pattern`).
fn trivial_direct_call_pattern(chunk: &FunctionChunk) -> (r: Option<TrivialDirectCall>)
    ensures
        r == trivial_pattern(*chunk),
{
    let code = &chunk.code;
    let one = chunk.param_count == 1 && chunk.locals_count == 1;
    let two = chunk.param_count == 2 && chunk.locals_count == 2;
    if one && code.len() == 4 {
        if let (Instr::LoadLocal(0), Instr::LoadConst(Value::Int(rhs)), Instr::Add, Instr::Return) = (&code[0], &code[1], &code[2], &code[3]) {
            return Some(TrivialDirectCall::AddConst(*rhs));
        }
        if let (Instr::LoadConst(Value::Int(rhs)), Instr::LoadLocal(0), Instr::Add, Instr::Return) = (&code[0], &code[1], &code[2], &code[3]) {
            return Some(TrivialDirectCall::AddConst(*rhs));
        }
    }
    if two && code.len() == 5 {
        if let (Instr::LoadLocal(0), Instr::StructGetSlot(f), Instr::LoadLocal(1), Instr::Add, Instr::Return) = (&code[0], &code[1], &code[2], &code[3], &code[4]) {
            return Some(TrivialDirectCall::StructFieldAdd(*f));
        }
    }
    if two && code.len() == 4 {
        if let (Instr::StructGetLocalSlot { slot: 0, field_slot }, Instr::LoadLocal(1), Instr::Add, Instr::Return) = (&code[0], &code[1], &code[2], &code[3]) {
            return Some(TrivialDirectCall::StructFieldAdd(*field_slot));
        }
    }
    None
}

/// The first of `ranks` from `k` on that is `idx`.
pub open spec fn first_with_rank(ranks: Seq<nat>, idx: nat, k: int) -> Option<int>
    decreases ranks.len() - k,
{
    if k >= ranks.len() || k < 0 {
        None
    } else if ranks[k] == idx {
        Some(k)
    } else {
        first_with_rank(ranks, idx, k + 1)
    }
}

/// The call index of each function.
pub open spec fn ranks_of(fs: Seq<FunctionChunk>) -> Seq<nat> {
    Seq::new(fs.len(), |k: int| rank(names_of(fs), fs[k].name@))
}

/// A call by index of a trivial function, fused into the one instruction
/// that does its work: the function called is the first whose call index is
/// the one called (with distinct names, the one function with that index).
pub open spec fn with_trivial_call(i: Instr, fs: Seq<FunctionChunk>) -> Instr {
    match i {
        Instr::CallIdx { idx, argc } => match first_with_rank(ranks_of(fs), idx as nat, 0) {
            Some(k) => match trivial_pattern(fs[k]) {
                Some(TrivialDirectCall::AddConst(rhs)) => if argc == 1 { Instr::CallIdxAddConst(rhs) } else { i },
                Some(TrivialDirectCall::StructFieldAdd(slot)) => if argc == 2 { Instr::CallIdxStructFieldAdd(slot) } else { i },
                None => i,
            },
            None => i,
        },
        _ => i,
    }
}

/// Fuses each call by index of a trivial function (see `with_trivial_call`).
pub fn rewrite_trivial_direct_calls(module: &mut BytecodeModule)
    ensures
        code_rewritten(*old(module), *final(module), |i: Instr| with_trivial_call(i, old(module).functions@)),
{
    let ghost start = *module;
    let ghost fs = start.functions@;
    let names = function_names(module);
    let n = module.functions.len();
    let mut ranks: Vec<usize> = Vec::new();
    let mut trivial: Vec<Option<TrivialDirectCall>> = Vec::new();
    let mut k: usize = 0;
    while k < n
        invariant
            n == fs.len(),
            fs == module.functions@,
            names@.map_values(|s: String| s@) == names_of(fs),
            k <= n,
            ranks@.len() == k,
            trivial@.len() == k,
            forall|t: int| 0 <= t < k ==> #[trigger] ranks@[t] as nat == ranks_of(fs)[t],
            forall|t: int| 0 <= t < k ==> #[trigger] trivial@[t] == trivial_pattern(fs[t]),
        decreases n - k,
    {
        proof {
            assert(names_of(fs)[k as int] == fs[k as int].name@);
            assert(names_of(fs).contains(fs[k as int].name@));
            lemma_rank_bound(names_of(fs), fs[k as int].name@);
            assert(ranks_of(fs)[k as int] == rank(names_of(fs), fs[k as int].name@));
        }
        let r = match function_index(&names, module.functions[k].name.as_str()) {
            Some(r) => r,
            None => 0,
        };
        ranks.push(r);
        trivial.push(trivial_direct_call_pattern(&module.functions[k]));
        k += 1;
    }
    let mut k: usize = 0;
    while k < module.functions.len()
        invariant
            k <= module.functions@.len(),
            n == fs.len(),
            fs == start.functions@,
            ranks@.len() == n,
            trivial@.len() == n,
            forall|t: int| 0 <= t < n ==> #[trigger] ranks@[t] as nat == ranks_of(fs)[t],
            forall|t: int| 0 <= t < n ==> #[trigger] trivial@[t] == trivial_pattern(fs[t]),
            module.functions@.len() == start.functions@.len(),
            module.method_names == start.method_names,
            module.struct_shapes == start.struct_shapes,
            forall|t: int| 0 <= t < module.functions@.len() ==> {
                &&& (#[trigger] module.functions@[t]).name == start.functions@[t].name
                &&& module.functions@[t].locals_count == start.functions@[t].locals_count
                &&& module.functions@[t].param_count == start.functions@[t].param_count
                &&& module.functions@[t].code@.len() == start.functions@[t].code@.len()
            },
            forall|t: int, j: int| 0 <= t < k && 0 <= j < start.functions@[t].code@.len()
                ==> #[trigger] module.functions@[t].code@[j] == with_trivial_call(start.functions@[t].code@[j], fs),
            forall|t: int, j: int| k <= t < module.functions@.len() && 0 <= j < start.functions@[t].code@.len()
                ==> #[trigger] module.functions@[t].code@[j] == start.functions@[t].code@[j],
        decreases module.functions@.len() - k,
    {
        let mut j: usize = 0;
        while j < module.functions[k].code.len()
            invariant
                k < module.functions@.len(),
                j <= module.functions@[k as int].code@.len(),
                n == fs.len(),
                fs == start.functions@,
                ranks@.len() == n,
                trivial@.len() == n,
                forall|t: int| 0 <= t < n ==> #[trigger] ranks@[t] as nat == ranks_of(fs)[t],
                forall|t: int| 0 <= t < n ==> #[trigger] trivial@[t] == trivial_pattern(fs[t]),
                module.functions@.len() == start.functions@.len(),
                module.method_names == start.method_names,
                module.struct_shapes == start.struct_shapes,
                forall|t: int| 0 <= t < module.functions@.len() ==> {
                    &&& (#[trigger] module.functions@[t]).name == start.functions@[t].name
                    &&& module.functions@[t].locals_count == start.functions@[t].locals_count
                    &&& module.functions@[t].param_count == start.functions@[t].param_count
                    &&& module.functions@[t].code@.len() == start.functions@[t].code@.len()
                },
                forall|t: int, i: int| 0 <= t < k && 0 <= i < start.functions@[t].code@.len()
                    ==> #[trigger] module.functions@[t].code@[i] == with_trivial_call(start.functions@[t].code@[i], fs),
                forall|t: int, i: int| k < t < module.functions@.len() && 0 <= i < start.functions@[t].code@.len()
                    ==> #[trigger] module.functions@[t].code@[i] == start.functions@[t].code@[i],
                forall|i: int| 0 <= i < j ==> #[trigger] module.functions@[k as int].code@[i] == with_trivial_call(start.functions@[k as int].code@[i], fs),
                forall|i: int| j <= i < start.functions@[k as int].code@.len() ==> #[trigger] module.functions@[k as int].code@[i] == start.functions@[k as int].code@[i],
            decreases module.functions@[k as int].code@.len() - j,
        {
            let replacement = match &module.functions[k].code[j] {
                Instr::CallIdx { idx, argc } => {
                    let mut t: usize = 0;
                    let mut holder: Option<usize> = None;
                    while t < n
                        invariant
                            t <= n,
                            n == fs.len(),
                            ranks@.len() == n,
                            forall|u: int| 0 <= u < n ==> #[trigger] ranks@[u] as nat == ranks_of(fs)[u],
                            holder is None ==> first_with_rank(ranks_of(fs), *idx as nat, 0) == first_with_rank(ranks_of(fs), *idx as nat, t as int),
                            holder matches Some(h) ==> first_with_rank(ranks_of(fs), *idx as nat, 0) == Some(h as int) && h < n,
                        decreases n - t,
                    {
                        if holder.is_none() && ranks[t] == *idx {
                            holder = Some(t);
                        }
                        t += 1;
                    }
                    match holder {
                        Some(h) => match trivial[h] {
                            Some(TrivialDirectCall::AddConst(rhs)) => if *argc == 1 { Some(Instr::CallIdxAddConst(rhs)) } else { None },
                            Some(TrivialDirectCall::StructFieldAdd(slot)) => if *argc == 2 { Some(Instr::CallIdxStructFieldAdd(slot)) } else { None },
                            None => None,
                        },
                        None => None,
                    }
                },
                _ => None,
            };
            match replacement {
                Some(x) => {
                    module.functions[k].code.set(j, x);
                },
                None => {},
            }
            j += 1;
        }
        k += 1;
    }
}

/// A value with each function named in it that the module has replaced by
/// its index (see `call_index`), inside arrays and struct fields too.
pub open spec fn indexed_value(v: ValueV, names: Seq<Seq<char>>) -> ValueV
    decreases v,
{
    match v {
        ValueV::Array(items) => ValueV::Array(indexed_values(items, names)),
        ValueV::Struct(n, field_names, fields) => ValueV::Struct(n, field_names, indexed_values(fields, names)),
        ValueV::Function(name) => match call_index(names, name) {
            Some(i) => ValueV::FunctionIdx(i),
            None => v,
        },
        _ => v,
    }
}

/// `indexed_value` of each value.
pub open spec fn indexed_values(s: Seq<ValueV>, names: Seq<Seq<char>>) -> Seq<ValueV>
    decreases s,
{
    if s.len() == 0 {
        seq![]
    } else {
        indexed_values(s.drop_last(), names).push(indexed_value(s.last(), names))
    }
}

/// A copy of a list of texts.
fn copy_texts(v: &Vec<String>) -> (r: Vec<String>)
    ensures
        texts(r@) == texts(v@),
{
    let mut out: Vec<String> = Vec::new();
    let mut k: usize = 0;
    while k < v.len()
        invariant
            k <= v@.len(),
            out@.len() == k,
            forall|t: int| 0 <= t < k ==> (#[trigger] out@[t])@ == v@[t]@,
        decreases v@.len() - k,
    {
        out.push(v[k].clone());
        k += 1;
    }
    assert(texts(out@) =~= texts(v@));
    out
}

/// A copy of a value with the functions named in it replaced by their
/// indexes among `names` (see `indexed_value`).
fn indexed_copy(v: &Value, names: &Vec<String>) -> (r: Value)
    ensures
        value_view(r) == indexed_value(value_view(*v), names@.map_values(|s: String| s@)),
    decreases v,
{
    let ghost ns = names@.map_values(|s: String| s@);
    match v {
        Value::Int(n) => Value::Int(*n),
        Value::Float(b) => Value::Float(*b),
        Value::Bool(b) => Value::Bool(*b),
        Value::String(s) => Value::String(s.clone()),
        Value::VecHandle(h) => Value::VecHandle(*h),
        Value::FunctionIdx(i) => Value::FunctionIdx(*i),
        Value::Unit => Value::Unit,
        Value::Function(name) => match function_index(names, name.as_str()) {
            Some(i) => Value::FunctionIdx(i),
            None => Value::Function(name.clone()),
        },
        Value::Array(items) => {
            let mut out: Vec<Value> = Vec::new();
            let mut k: usize = 0;
            proof {
                assert(items@.take(0) =~= Seq::<Value>::empty());
                assert(out@ =~= Seq::<Value>::empty());
            }
            while k < items.len()
                invariant
                    k <= items@.len(),
                    ns == names@.map_values(|s: String| s@),
                    decreases_to!(*v => *items),
                    values_view(out@) == indexed_values(values_view(items@.take(k as int)), ns),
                decreases items@.len() - k,
            {
                proof {
                    assert(decreases_to!(*items => items[k as int]));
                }
                let x = indexed_copy(&items[k], names);
                let ghost before = out@;
                out.push(x);
                proof {
                    lemma_values_view_take(items@, k as int);
                    assert(out@.drop_last() =~= before);
                    assert(values_view(items@.take(k + 1)).drop_last() =~= values_view(items@.take(k as int)));
                }
                k += 1;
            }
            assert(items@.take(k as int) =~= items@);
            Value::Array(out)
        },
        Value::Struct { shape, fields } => {
            let mut out: Vec<Value> = Vec::new();
            let mut k: usize = 0;
            proof {
                assert(fields@.take(0) =~= Seq::<Value>::empty());
                assert(out@ =~= Seq::<Value>::empty());
            }
            while k < fields.len()
                invariant
                    k <= fields@.len(),
                    ns == names@.map_values(|s: String| s@),
                    decreases_to!(*v => *fields),
                    values_view(out@) == indexed_values(values_view(fields@.take(k as int)), ns),
                decreases fields@.len() - k,
            {
                proof {
                    assert(decreases_to!(*fields => fields[k as int]));
                }
                let x = indexed_copy(&fields[k], names);
                let ghost before = out@;
                out.push(x);
                proof {
                    lemma_values_view_take(fields@, k as int);
                    assert(out@.drop_last() =~= before);
                    assert(values_view(fields@.take(k + 1)).drop_last() =~= values_view(fields@.take(k as int)));
                }
                k += 1;
            }
            assert(fields@.take(k as int) =~= fields@);
            Value::Struct {
                shape: StructShape { name: shape.name.clone(), field_names: copy_texts(&shape.field_names) },
                fields: out,
            }
        },
    }
}

/// An instruction's view with the functions named in the constant it loads
/// replaced by their indexes.
pub open spec fn with_value_indexes(p: (u8, Seq<FieldV>), names: Seq<Seq<char>>) -> (u8, Seq<FieldV>) {
    if p.0 == 0 && p.1.len() == 1 {
        match p.1[0] {
            FieldV::Val(v) => (0u8, seq![FieldV::Val(indexed_value(v, names))]),
            _ => p,
        }
    } else {
        p
    }
}

/// `new` is `old` with the view of each instruction `i` of each function
/// replaced by `f(i)`; names, counts, method names and struct shapes stay.
pub open spec fn views_rewritten(old: BytecodeModule, new: BytecodeModule, f: spec_fn((u8, Seq<FieldV>)) -> (u8, Seq<FieldV>)) -> bool {
    &&& new.functions@.len() == old.functions@.len()
    &&& new.method_names == old.method_names
    &&& new.struct_shapes == old.struct_shapes
    &&& forall|k: int| 0 <= k < old.functions@.len() ==> {
        &&& (#[trigger] new.functions@[k]).name == old.functions@[k].name
        &&& new.functions@[k].locals_count == old.functions@[k].locals_count
        &&& new.functions@[k].param_count == old.functions@[k].param_count
        &&& new.functions@[k].code@.len() == old.functions@[k].code@.len()
        &&& forall|j: int| 0 <= j < old.functions@[k].code@.len() ==> #[trigger] instr_parts(new.functions@[k].code@[j]) == f(instr_parts(old.functions@[k].code@[j]))
    }
}

/// Replaces each function named in a constant that an instruction loads by
/// the function's index (see `indexed_value`).
pub fn rewrite_function_values_to_indexes(module: &mut BytecodeModule)
    ensures
        views_rewritten(*old(module), *final(module), |p: (u8, Seq<FieldV>)| with_value_indexes(p, names_of(old(module).functions@))),
{
    let names = function_names(module);
    let ghost ns = names_of(module.functions@);
    let ghost start = *module;
    let mut k: usize = 0;
    while k < module.functions.len()
        invariant
            k <= module.functions@.len(),
            names@.map_values(|s: String| s@) == ns,
            ns == names_of(start.functions@),
            module.functions@.len() == start.functions@.len(),
            module.method_names == start.method_names,
            module.struct_shapes == start.struct_shapes,
            forall|t: int| 0 <= t < module.functions@.len() ==> {
                &&& (#[trigger] module.functions@[t]).name == start.functions@[t].name
                &&& module.functions@[t].locals_count == start.functions@[t].locals_count
                &&& module.functions@[t].param_count == start.functions@[t].param_count
                &&& module.functions@[t].code@.len() == start.functions@[t].code@.len()
            },
            forall|t: int, j: int| 0 <= t < k && 0 <= j < start.functions@[t].code@.len()
                ==> #[trigger] instr_parts(module.functions@[t].code@[j]) == with_value_indexes(instr_parts(start.functions@[t].code@[j]), ns),
            forall|t: int, j: int| k <= t < module.functions@.len() && 0 <= j < start.functions@[t].code@.len()
                ==> #[trigger] module.functions@[t].code@[j] == start.functions@[t].code@[j],
        decreases module.functions@.len() - k,
    {
        let mut j: usize = 0;
        while j < module.functions[k].code.len()
            invariant
                k < module.functions@.len(),
                j <= module.functions@[k as int].code@.len(),
                names@.map_values(|s: String| s@) == ns,
                ns == names_of(start.functions@),
                module.functions@.len() == start.functions@.len(),
                module.method_names == start.method_names,
                module.struct_shapes == start.struct_shapes,
                forall|t: int| 0 <= t < module.functions@.len() ==> {
                    &&& (#[trigger] module.functions@[t]).name == start.functions@[t].name
                    &&& module.functions@[t].locals_count == start.functions@[t].locals_count
                    &&& module.functions@[t].param_count == start.functions@[t].param_count
                    &&& module.functions@[t].code@.len() == start.functions@[t].code@.len()
                },
                forall|t: int, i: int| 0 <= t < k && 0 <= i < start.functions@[t].code@.len()
                    ==> #[trigger] instr_parts(module.functions@[t].code@[i]) == with_value_indexes(instr_parts(start.functions@[t].code@[i]), ns),
                forall|t: int, i: int| k < t < module.functions@.len() && 0 <= i < start.functions@[t].code@.len()
                    ==> #[trigger] module.functions@[t].code@[i] == start.functions@[t].code@[i],
                forall|i: int| 0 <= i < j ==> #[trigger] instr_parts(module.functions@[k as int].code@[i]) == with_value_indexes(instr_parts(start.functions@[k as int].code@[i]), ns),
                forall|i: int| j <= i < start.functions@[k as int].code@.len() ==> #[trigger] module.functions@[k as int].code@[i] == start.functions@[k as int].code@[i],
            decreases module.functions@[k as int].code@.len() - j,
        {
            let replacement = match &module.functions[k].code[j] {
                Instr::LoadConst(v) => Some(Instr::LoadConst(indexed_copy(v, &names))),
                _ => None,
            };
            match replacement {
                Some(x) => {
                    module.functions[k].code.set(j, x);
                },
                None => {},
            }
            j += 1;
        }
        k += 1;
    }
}


/// A value on the stack of straight-line arithmetic code: an integer, or a
/// struct given by its integer fields.
pub enum StackValue {
    Num(int),
    Fields(Seq<int>),
}

/// The value that straight-line code returns, run with locals `locals` on
/// the stack `stack`: loads of locals and integer constants push them,
/// `Add` and `SubInt` replace the two top integers by their sum or
/// difference, `StructGetSlot(f)` replaces the struct on top by its field
/// `f`, `StructGetLocalSlot` pushes a field of a local struct, `Return`
/// gives the top value. Any other instruction, or a stack or locals that do
/// not fit, gives nothing.
pub open spec fn run_straight(code: Seq<Instr>, locals: Seq<StackValue>, stack: Seq<StackValue>) -> Option<StackValue>
    decreases code.len(),
{
    if code.len() == 0 {
        None
    } else {
        let rest = code.drop_first();
        match code[0] {
            Instr::Return => if stack.len() > 0 { Some(stack.last()) } else { None },
            Instr::LoadLocal(i) => if i < locals.len() {
                run_straight(rest, locals, stack.push(locals[i as int]))
            } else {
                None
            },
            Instr::LoadConst(Value::Int(c)) => run_straight(rest, locals, stack.push(StackValue::Num(c as int))),
            Instr::Add => if stack.len() >= 2 {
                match (stack[stack.len() - 2], stack.last()) {
                    (StackValue::Num(a), StackValue::Num(b)) =>
                        run_straight(rest, locals, stack.drop_last().drop_last().push(StackValue::Num(a + b))),
                    _ => None,
                }
            } else {
                None
            },
            Instr::SubInt => if stack.len() >= 2 {
                match (stack[stack.len() - 2], stack.last()) {
                    (StackValue::Num(a), StackValue::Num(b)) =>
                        run_straight(rest, locals, stack.drop_last().drop_last().push(StackValue::Num(a - b))),
                    _ => None,
                }
            } else {
                None
            },
            Instr::StructGetSlot(f) => if stack.len() >= 1 {
                match stack.last() {
                    StackValue::Fields(fs) => if f < fs.len() {
                        run_straight(rest, locals, stack.drop_last().push(StackValue::Num(fs[f as int])))
                    } else {
                        None
                    },
                    _ => None,
                }
            } else {
                None
            },
            Instr::StructGetLocalSlot { slot, field_slot } => if slot < locals.len() {
                match locals[slot as int] {
                    StackValue::Fields(fs) => if field_slot < fs.len() {
                        run_straight(rest, locals, stack.push(StackValue::Num(fs[field_slot as int])))
                    } else {
                        None
                    },
                    _ => None,
                }
            } else {
                None
            },
            _ => None,
        }
    }
}

/// A function whose calls are fused into `CallIdxAddConst(k)` computes its
/// one argument plus `k`: run on any integer `x`, its code returns `x + k`.
pub proof fn lemma_add_const_pattern_adds(c: FunctionChunk, k: i64, x: int)
    requires
        trivial_pattern(c) == Some(TrivialDirectCall::AddConst(k)),
    ensures
        c.param_count == 1,
        run_straight(c.code@, seq![StackValue::Num(x)], Seq::empty()) == Some(StackValue::Num(x + k)),
{
    let code = c.code@;
    let locals = seq![StackValue::Num(x)];
    let s1 = code.drop_first();
    let s2 = s1.drop_first();
    let s3 = s2.drop_first();
    assert(s1[0] == code[1] && s2[0] == code[2] && s3[0] == code[3]);
    let sum = seq![StackValue::Num(x + k)];
    assert(run_straight(s3, locals, sum) == Some(StackValue::Num(x + k)));
    if code[0] == Instr::LoadLocal(0) {
        let st = seq![StackValue::Num(x), StackValue::Num(k as int)];
        assert(st.drop_last().drop_last().push(StackValue::Num(x + k)) =~= sum);
        assert(run_straight(s2, locals, st) == Some(StackValue::Num(x + k)));
        assert(seq![StackValue::Num(x)].push(StackValue::Num(k as int)) =~= st);
        assert(run_straight(s1, locals, seq![StackValue::Num(x)]) == Some(StackValue::Num(x + k)));
        assert(Seq::<StackValue>::empty().push(locals[0]) =~= seq![StackValue::Num(x)]);
    } else {
        let st = seq![StackValue::Num(k as int), StackValue::Num(x)];
        assert(st.drop_last().drop_last().push(StackValue::Num(k + x)) =~= sum);
        assert(run_straight(s2, locals, st) == Some(StackValue::Num(x + k)));
        assert(seq![StackValue::Num(k as int)].push(locals[0]) =~= st);
        assert(run_straight(s1, locals, seq![StackValue::Num(k as int)]) == Some(StackValue::Num(x + k)));
        assert(Seq::<StackValue>::empty().push(StackValue::Num(k as int)) =~= seq![StackValue::Num(k as int)]);
    }
}

/// A function whose calls are fused into `CallIdxStructFieldAdd(f)` adds
/// field `f` of its first argument to its second: run on any struct with
/// such a field and any integer `x`, its code returns that field plus `x`.
pub proof fn lemma_struct_field_pattern_adds(c: FunctionChunk, f: usize, fields: Seq<int>, x: int)
    requires
        trivial_pattern(c) == Some(TrivialDirectCall::StructFieldAdd(f)),
        f < fields.len(),
    ensures
        c.param_count == 2,
        run_straight(c.code@, seq![StackValue::Fields(fields), StackValue::Num(x)], Seq::empty())
            == Some(StackValue::Num(fields[f as int] + x)),
{
    let code = c.code@;
    let locals = seq![StackValue::Fields(fields), StackValue::Num(x)];
    let v = fields[f as int] + x;
    let s1 = code.drop_first();
    let s2 = s1.drop_first();
    let s3 = s2.drop_first();
    assert(s1[0] == code[1] && s2[0] == code[2] && s3[0] == code[3]);
    let field = seq![StackValue::Num(fields[f as int])];
    let both = seq![StackValue::Num(fields[f as int]), StackValue::Num(x)];
    let sum = seq![StackValue::Num(v)];
    assert(both.drop_last().drop_last().push(StackValue::Num(v)) =~= sum);
    assert(field.push(locals[1]) =~= both);
    if code.len() == 5 {
        let s4 = s3.drop_first();
        assert(s4[0] == code[4]);
        assert(run_straight(s4, locals, sum) == Some(StackValue::Num(v)));
        assert(run_straight(s3, locals, both) == Some(StackValue::Num(v)));
        assert(run_straight(s2, locals, field) == Some(StackValue::Num(v)));
        let st = seq![StackValue::Fields(fields)];
        assert(st.drop_last().push(StackValue::Num(fields[f as int])) =~= field);
        assert(run_straight(s1, locals, st) == Some(StackValue::Num(v)));
        assert(Seq::<StackValue>::empty().push(locals[0]) =~= st);
    } else {
        assert(run_straight(s3, locals, sum) == Some(StackValue::Num(v)));
        assert(run_straight(s2, locals, both) == Some(StackValue::Num(v)));
        assert(run_straight(s1, locals, field) == Some(StackValue::Num(v)));
        assert(Seq::<StackValue>::empty().push(StackValue::Num(fields[f as int])) =~= field);
    }
}


/// A call fused into `CallIdxAddConst(c)` was a call with one argument of a
/// function that, run on any integer `x`, returns `x + c`.
pub proof fn lemma_fused_add_const_call(i: Instr, fs: Seq<FunctionChunk>, c: i64, x: int)
    requires
        i is CallIdx,
        with_trivial_call(i, fs) == Instr::CallIdxAddConst(c),
    ensures
        match i {
            Instr::CallIdx { idx, argc } => argc == 1 && match first_with_rank(ranks_of(fs), idx as nat, 0) {
                Some(k) => fs[k].param_count == 1
                    && run_straight(fs[k].code@, seq![StackValue::Num(x)], Seq::empty()) == Some(StackValue::Num(x + c)),
                None => false,
            },
            _ => false,
        },
{
    if let Instr::CallIdx { idx, argc } = i {
        if let Some(k) = first_with_rank(ranks_of(fs), idx as nat, 0) {
            lemma_add_const_pattern_adds(fs[k], c, x);
        }
    }
}

/// A call fused into `CallIdxStructFieldAdd(f)` was a call with two
/// arguments of a function that adds field `f` of its first argument to its
/// second.
pub proof fn lemma_fused_struct_field_call(i: Instr, fs: Seq<FunctionChunk>, f: usize, fields: Seq<int>, x: int)
    requires
        i is CallIdx,
        with_trivial_call(i, fs) == Instr::CallIdxStructFieldAdd(f),
        f < fields.len(),
    ensures
        match i {
            Instr::CallIdx { idx, argc } => argc == 2 && match first_with_rank(ranks_of(fs), idx as nat, 0) {
                Some(k) => fs[k].param_count == 2
                    && run_straight(fs[k].code@, seq![StackValue::Fields(fields), StackValue::Num(x)], Seq::empty())
                        == Some(StackValue::Num(fields[f as int] + x)),
                None => false,
            },
            _ => false,
        },
{
    if let Instr::CallIdx { idx, argc } = i {
        if let Some(k) = first_with_rank(ranks_of(fs), idx as nat, 0) {
            lemma_struct_field_pattern_adds(fs[k], f, fields, x);
        }
    }
}

} // verus!
