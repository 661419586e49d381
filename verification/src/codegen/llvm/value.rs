//! Names of LLVM values: temps, locals, globals, symbols, and operand loads.

use vstd::prelude::*;
use vstd::string::StringExecFns;

use crate::codegen::{CodegenError, Fault};
use crate::codegen::llvm::strings::StringLiterals;
use crate::codegen::llvm::types::{llvm_ty, llvm_type};
use crate::ir::consts::utf8;
use crate::ir::{same_type, ConstValue, IrFunction, IrType, Operand, TempId};
use crate::text::{decimal, escape_symbol, int_text, i64_text, lemma_decimal_injective, lemma_prefix_cancel, symbol_char_escape, symbol_escape, u128_text, usize_text};

verus! {

broadcast use vstd::std_specs::vec::group_vec_axioms;

/// The register that holds temp `id`.
pub open spec fn temp_name(id: usize) -> Seq<char> {
    "%t"@ + decimal(id as nat)
}

/// The `n`-th scratch register of a function.
pub open spec fn value_name(n: nat) -> Seq<char> {
    "%v"@ + decimal(n)
}

/// The stack slot of local `id`.
pub open spec fn local_slot(id: usize) -> Seq<char> {
    "%local"@ + decimal(id as nat)
}

/// The global variable of global `id`.
pub open spec fn global_symbol(id: usize) -> Seq<char> {
    "@g"@ + decimal(id as nat)
}

/// Registers never clash: distinct temps have distinct registers, distinct
/// scratch numbers distinct scratch registers, and no scratch register is a
/// temp's register.
pub proof fn lemma_register_names_distinct(a: usize, b: usize, m: nat, n: nat)
    ensures
        a != b ==> temp_name(a) != temp_name(b),
        m != n ==> value_name(m) != value_name(n),
        temp_name(a) != value_name(m),
{
    if temp_name(a) == temp_name(b) {
        lemma_prefix_cancel("%t"@, decimal(a as nat), decimal(b as nat));
        lemma_decimal_injective(a as nat, b as nat);
    }
    if value_name(m) == value_name(n) {
        lemma_prefix_cancel("%v"@, decimal(m), decimal(n));
        lemma_decimal_injective(m, n);
    }
    reveal_strlit("%t");
    reveal_strlit("%v");
    assert(temp_name(a)[1] == 't');
    assert(value_name(m)[1] == 'v');
}

/// The ids of the temps that `func` declares.
pub open spec fn temp_ids(func: IrFunction) -> Set<usize> {
    Set::new(|k: usize| exists|i: int| 0 <= i < func.temps@.len() && #[trigger] func.temps@[i].id.0 == k)
}

/// The message of a lookup of an undeclared temp.
pub open spec fn unknown_temp_message(id: usize) -> Seq<char> {
    "unknown temp TempId("@ + decimal(id as nat) + ")"@
}

/// The register of temp `id`, if `known` holds it.
pub open spec fn temp_lookup(known: Set<usize>, id: usize) -> Result<Seq<char>, Fault> {
    if known.contains(id) {
        Ok(temp_name(id))
    } else {
        Err(Fault::InvalidIr(unknown_temp_message(id)))
    }
}

/// The registers of the temps of one function.
pub struct ValueNames {
    entries: Vec<(TempId, String)>,
}

impl ValueNames {
    #[verifier::type_invariant]
    spec fn each_entry_is_its_temp_name(self) -> bool {
        forall|i: int| 0 <= i < self.entries@.len() ==> (#[trigger] self.entries@[i]).1@ == temp_name(self.entries@[i].0.0)
    }
}

impl View for ValueNames {
    type V = Set<usize>;

    /// The ids of the temps that have a register.
    closed spec fn view(&self) -> Set<usize> {
        Set::new(|k: usize| exists|i: int| 0 <= i < self.entries@.len() && #[trigger] self.entries@[i].0.0 == k)
    }
}

impl ValueNames {
    /// Gives each temp of `func` the register `%t` followed by its id.
    pub fn new(func: &IrFunction) -> (r: Self)
        ensures
            r@ == temp_ids(*func),
    {
        let mut entries: Vec<(TempId, String)> = Vec::new();
        let mut i: usize = 0;
        while i < func.temps.len()
            invariant
                i <= func.temps@.len(),
                entries@.len() == i,
                forall|j: int| 0 <= j < i ==> (#[trigger] entries@[j]).0 == func.temps@[j].id,
                forall|j: int| 0 <= j < i ==> (#[trigger] entries@[j]).1@ == temp_name(entries@[j].0.0),
            decreases func.temps@.len() - i,
        {
            let id = func.temps[i].id;
            let mut name = String::from_str("%t");
            name.append(usize_text(id.0).as_str());
            entries.push((id, name));
            i += 1;
        }
        let r = ValueNames { entries };
        assert(r@ =~= temp_ids(*func)) by {
            assert forall|k: usize| r@.contains(k) implies temp_ids(*func).contains(k) by {
                let j = choose|j: int| 0 <= j < r.entries@.len() && #[trigger] r.entries@[j].0.0 == k;
                assert(func.temps@[j].id.0 == k);
            }
            assert forall|k: usize| temp_ids(*func).contains(k) implies r@.contains(k) by {
                let j = choose|j: int| 0 <= j < func.temps@.len() && #[trigger] func.temps@[j].id.0 == k;
                assert(r.entries@[j].0.0 == k);
            }
        }
        r
    }

    /// The register of temp `temp`; an undeclared temp is invalid IR.
    pub fn temp(&self, temp: TempId) -> (r: Result<&str, CodegenError>)
        ensures
            match temp_lookup(self@, temp.0) {
                Ok(n) => r matches Ok(s) && s@ == n,
                Err(f) => r matches Err(e) && e@ == f,
            },
    {
        proof {
            use_type_invariant(self);
        }
        let mut i: usize = 0;
        while i < self.entries.len()
            invariant
                i <= self.entries@.len(),
                forall|j: int| 0 <= j < i ==> (#[trigger] self.entries@[j]).0.0 != temp.0,
                forall|j: int| 0 <= j < self.entries@.len() ==> (#[trigger] self.entries@[j]).1@ == temp_name(self.entries@[j].0.0),
            decreases self.entries@.len() - i,
        {
            if self.entries[i].0 == temp {
                assert(self@.contains(temp.0)) by {
                    assert(self.entries@[i as int].0.0 == temp.0);
                }
                return Ok(self.entries[i].1.as_str());
            }
            i += 1;
        }
        let mut msg = String::from_str("unknown temp TempId(");
        msg.append(usize_text(temp.0).as_str());
        msg.append(")");
        Err(CodegenError::InvalidIr(msg))
    }
}

/// A symbol name as an LLVM global symbol: `@"`, the name with backslashes and
/// double quotes escaped, `"`.
pub open spec fn symbol_text(name: Seq<char>) -> Seq<char> {
    "@\""@ + symbol_escape(name) + "\""@
}

/// The LLVM global symbol of the name `name`.
pub fn llvm_symbol(name: &str) -> (r: String)
    ensures
        r@ == symbol_text(name@),
{
    let mut s = String::from_str("@\"");
    s.append(escape_symbol(name).as_str());
    s.append("\"");
    s
}

/// A quoted symbol holds no double quote between its delimiters: the name's
/// own are escaped.
pub proof fn lemma_symbol_escape_unquoted(name: Seq<char>)
    ensures
        forall|i: int| 0 <= i < symbol_escape(name).len() ==> symbol_escape(name)[i] != '"',
    decreases name.len(),
{
    if name.len() > 0 {
        lemma_symbol_escape_unquoted(name.drop_last());
        reveal_strlit("\\5C");
        reveal_strlit("\\22");
        let prev = symbol_escape(name.drop_last());
        let last = symbol_char_escape(name.last());
        assert forall|i: int| 0 <= i < symbol_escape(name).len() implies symbol_escape(name)[i] != '"' by {
            if i < prev.len() {
                assert(symbol_escape(name)[i] == prev[i]);
            } else {
                assert(symbol_escape(name)[i] == last[i - prev.len()]);
            }
        }
    }
}

/// The message of a string constant where a plain value is asked for.
pub open spec fn string_constant_message() -> Seq<char> {
    "string constants require operand_load in LLVM lowering"@
}

/// The LLVM value of an operand that needs no load: an integer or boolean
/// constant, a temp's register, a local's slot, a global's symbol.
pub open spec fn value_of(known: Set<usize>, op: Operand) -> Result<Seq<char>, Fault> {
    match op {
        Operand::Const(ConstValue::Int(v)) => Ok(int_text(v as int)),
        Operand::Const(ConstValue::Bool(b)) => Ok(if b { "1"@ } else { "0"@ }),
        Operand::Temp(id) => temp_lookup(known, id.0),
        Operand::Local(id) => Ok(local_slot(id.0)),
        Operand::Global(id) => Ok(global_symbol(id.0)),
        Operand::Const(_) => Err(Fault::Unsupported(string_constant_message())),
    }
}

/// The LLVM value of `operand` (see `value_of`).
pub fn operand_value(names: &ValueNames, operand: &Operand, func: &IrFunction) -> (r: Result<String, CodegenError>)
    ensures
        match value_of(names@, *operand) {
            Ok(v) => r matches Ok(s) && s@ == v,
            Err(f) => r matches Err(e) && e@ == f,
        },
{
    match operand {
        Operand::Const(ConstValue::Int(v)) => Ok(i64_text(*v)),
        Operand::Const(ConstValue::Bool(v)) => Ok(if *v { String::from_str("1") } else { String::from_str("0") }),
        Operand::Temp(id) => match names.temp(*id) {
            Ok(s) => Ok(s.to_string()),
            Err(e) => Err(e),
        },
        Operand::Local(id) => Ok(local_slot_text(id.0)),
        Operand::Global(id) => Ok(global_symbol_text(id.0)),
        Operand::Const(_) => Err(CodegenError::Unsupported("string constants require operand_load in LLVM lowering")),
    }
}

/// What an emitter appends and returns: the lines it appends, the value of
/// the scratch counter afterwards, and its result.
pub struct Emitted {
    pub lines: Seq<Seq<char>>,
    pub counter: nat,
    pub value: Result<Seq<char>, Fault>,
}

/// Nothing appended, the counter unchanged, result `value`.
pub open spec fn just(counter: nat, value: Result<Seq<char>, Fault>) -> Emitted {
    Emitted { lines: seq![], counter, value }
}

/// `first`, then, where it succeeded, `rest` applied to its result and counter.
pub open spec fn then(first: Emitted, rest: spec_fn(Seq<char>, nat) -> Emitted) -> Emitted {
    match first.value {
        Ok(v) => {
            let second = rest(v, first.counter);
            Emitted { lines: first.lines + second.lines, counter: second.counter, value: second.value }
        },
        Err(f) => first,
    }
}

/// The message of a string constant that has no symbol.
pub open spec fn missing_literal_message() -> Seq<char> {
    "missing string literal declaration"@
}

/// The line that takes the address of the first byte of a literal's storage.
pub open spec fn literal_address_line(dest: Seq<char>, size: nat, symbol: Seq<char>) -> Seq<char> {
    "  "@ + dest + " = getelementptr inbounds ["@ + decimal(size) + " x i8], ptr "@ + symbol + ", i64 0, i64 0"@
}

/// The line that makes a runtime string from `len` bytes at `bytes`.
pub open spec fn string_from_utf8_line(dest: Seq<char>, bytes: Seq<char>, len: nat) -> Seq<char> {
    "  "@ + dest + " = call ptr @skp_rt_string_from_utf8(ptr "@ + bytes + ", i64 "@ + decimal(len) + ")"@
}

/// The line that loads a value of LLVM type `ty` from `slot`.
pub open spec fn load_line(dest: Seq<char>, ty: Seq<char>, slot: Seq<char>) -> Seq<char> {
    "  "@ + dest + " = load "@ + ty + ", ptr "@ + slot + ", align 8"@
}

/// What loading `op` emits from counter `c`, for a value whose LLVM type is
/// `lowered` (the lowering of the type it is loaded as): a string constant
/// becomes a runtime string built from its literal's storage, a local or
/// global is loaded from its slot (failing where the type has no lowering),
/// any other operand is its value.
#[verifier::opaque]
pub open spec fn load(known: Set<usize>, op: Operand, c: nat, lowered: Result<Seq<char>, Fault>, lits: Map<Seq<char>, Seq<char>>) -> Emitted {
    match op {
        Operand::Const(ConstValue::String(s)) => if lits.contains_key(s@) {
            let len = utf8(s@).len();
            Emitted {
                lines: seq![
                    literal_address_line(value_name(c), len + 1, lits[s@]),
                    string_from_utf8_line(value_name(c + 1), value_name(c), len),
                ],
                counter: c + 2,
                value: Ok(value_name(c + 1)),
            }
        } else {
            just(c, Err(Fault::InvalidIr(missing_literal_message())))
        },
        Operand::Local(id) => match lowered {
            Ok(t) => Emitted { lines: seq![load_line(value_name(c), t, local_slot(id.0))], counter: c + 1, value: Ok(value_name(c)) },
            Err(f) => just(c + 1, Err(f)),
        },
        Operand::Global(id) => match lowered {
            Ok(t) => Emitted { lines: seq![load_line(value_name(c), t, global_symbol(id.0))], counter: c + 1, value: Ok(value_name(c)) },
            Err(f) => just(c + 1, Err(f)),
        },
        _ => just(c, value_of(known, op)),
    }
}

/// A load advances the counter by at most two.
pub proof fn lemma_load_counter(known: Set<usize>, op: Operand, c: nat, lowered: Result<Seq<char>, Fault>, lits: Map<Seq<char>, Seq<char>>)
    ensures
        c <= load(known, op, c, lowered, lits).counter <= c + 2,
{
    reveal(load);
}

/// `lines` ends with what `e` appends to `before`, `counter` is its counter,
/// and `r` its result.
pub open spec fn emitted_as(e: Emitted, before: Seq<String>, lines: Seq<String>, counter: usize, r: Result<String, CodegenError>) -> bool {
    &&& crate::codegen::texts(lines) == crate::codegen::texts(before) + e.lines
    &&& counter == e.counter
    &&& match e.value {
        Ok(v) => r matches Ok(s) && s@ == v,
        Err(f) => r matches Err(x) && x@ == f,
    }
}

/// The stack slot of local `id`.
pub fn local_slot_text(id: usize) -> (r: String)
    ensures
        r@ == local_slot(id),
{
    let mut s = String::from_str("%local");
    s.append(usize_text(id).as_str());
    s
}

/// The global variable of global `id`.
pub fn global_symbol_text(id: usize) -> (r: String)
    ensures
        r@ == global_symbol(id),
{
    let mut s = String::from_str("@g");
    s.append(usize_text(id).as_str());
    s
}

/// The register `%v` followed by `n`.
pub fn scratch_name(n: usize) -> (r: String)
    ensures
        r@ == value_name(n as nat),
{
    let mut s = String::from_str("%v");
    s.append(usize_text(n).as_str());
    s
}

/// Appends `line` to `lines`.
pub fn push_line(lines: &mut Vec<String>, line: String)
    ensures
        crate::codegen::texts(final(lines)@) == crate::codegen::texts(old(lines)@).push(line@),
{
    let ghost l = line@;
    lines.push(line);
    assert(crate::codegen::texts(lines@) =~= crate::codegen::texts(old(lines)@).push(l));
}

/// Loads `operand` as a value of type `expected_ty` (see `load`), appending
/// the lines that do so and advancing the scratch counter.
pub fn operand_load(
    names: &ValueNames,
    operand: &Operand,
    func: &IrFunction,
    lines: &mut Vec<String>,
    counter: &mut usize,
    expected_ty: &IrType,
    string_literals: &StringLiterals,
) -> (r: Result<String, CodegenError>)
    requires
        load(names@, *operand, *old(counter) as nat, llvm_type(*expected_ty), string_literals@).counter <= usize::MAX,
    ensures
        emitted_as(load(names@, *operand, *old(counter) as nat, llvm_type(*expected_ty), string_literals@),
            old(lines)@, final(lines)@, *final(counter), r),
{
    reveal(load);
    let ghost start = crate::codegen::texts(lines@);
    match operand {
        Operand::Const(ConstValue::String(value)) => {
            let name = match string_literals.get(value.as_str()) {
                Some(n) => n,
                None => {
                    assert(start + seq![] =~= start);
                    return Err(CodegenError::InvalidIr(String::from_str("missing string literal declaration")));
                },
            };
            let gep = scratch_name(*counter);
            *counter += 1;
            let len = value.as_str().as_bytes().len();
            let mut l1 = String::from_str("  ");
            l1.append(gep.as_str());
            l1.append(" = getelementptr inbounds [");
            l1.append(u128_text(len as u128 + 1).as_str());
            l1.append(" x i8], ptr ");
            l1.append(name);
            l1.append(", i64 0, i64 0");
            push_line(lines, l1);
            let string = scratch_name(*counter);
            *counter += 1;
            let mut l2 = String::from_str("  ");
            l2.append(string.as_str());
            l2.append(" = call ptr @skp_rt_string_from_utf8(ptr ");
            l2.append(gep.as_str());
            l2.append(", i64 ");
            l2.append(usize_text(len).as_str());
            l2.append(")");
            push_line(lines, l2);
            assert(crate::codegen::texts(lines@) =~= start + load(names@, *operand, *old(counter) as nat, llvm_type(*expected_ty), string_literals@).lines);
            Ok(string)
        },
        Operand::Local(id) => {
            let name = scratch_name(*counter);
            *counter += 1;
            let ty = match llvm_ty(expected_ty) {
                Ok(t) => t,
                Err(e) => {
                    assert(start + seq![] =~= start);
                    return Err(e);
                },
            };
            let mut l = String::from_str("  ");
            l.append(name.as_str());
            l.append(" = load ");
            l.append(ty);
            l.append(", ptr ");
            l.append(local_slot_text(id.0).as_str());
            l.append(", align 8");
            push_line(lines, l);
            assert(crate::codegen::texts(lines@) =~= start + load(names@, *operand, *old(counter) as nat, llvm_type(*expected_ty), string_literals@).lines);
            Ok(name)
        },
        Operand::Global(id) => {
            let name = scratch_name(*counter);
            *counter += 1;
            let ty = match llvm_ty(expected_ty) {
                Ok(t) => t,
                Err(e) => {
                    assert(start + seq![] =~= start);
                    return Err(e);
                },
            };
            let mut l = String::from_str("  ");
            l.append(name.as_str());
            l.append(" = load ");
            l.append(ty);
            l.append(", ptr ");
            l.append(global_symbol_text(id.0).as_str());
            l.append(", align 8");
            push_line(lines, l);
            assert(crate::codegen::texts(lines@) =~= start + load(names@, *operand, *old(counter) as nat, llvm_type(*expected_ty), string_literals@).lines);
            Ok(name)
        },
        _ => {
            assert(start + seq![] =~= start);
            operand_value(names, operand, func)
        },
    }
}

} // verus!
