//! String literals: the global symbols that hold them, and their C encoding.

use vstd::prelude::*;
use vstd::hash_map::StringHashMap;
use vstd::string::{StrSliceExecFns, StringExecFns};

use crate::ir::consts::utf8;
use crate::ir::{BasicBlock, ConstValue, Instr, IrFunction, IrProgram, Operand, Terminator};
use crate::text::{decimal, lemma_decimal_injective, lemma_prefix_cancel, text_eq, usize_text};

verus! {

/// The symbol that holds each string literal of a program, by the literal's text.
pub struct StringLiterals {
    map: StringHashMap<String>,
}

impl View for StringLiterals {
    type V = Map<Seq<char>, Seq<char>>;

    closed spec fn view(&self) -> Map<Seq<char>, Seq<char>> {
        self.map@.map_values(|v: String| v@)
    }
}

impl StringLiterals {
    /// No literal.
    pub fn new() -> (r: Self)
        ensures
            r@ == Map::<Seq<char>, Seq<char>>::empty(),
    {
        let r = StringLiterals { map: StringHashMap::new() };
        assert(r@ =~= Map::<Seq<char>, Seq<char>>::empty());
        r
    }

    /// The symbol of `literal`, if it has one.
    pub fn get(&self, literal: &str) -> (r: Option<&str>)
        ensures
            match r {
                Some(s) => self@.contains_key(literal@) && s@ == self@[literal@],
                None => !self@.contains_key(literal@),
            },
    {
        match self.map.get(literal) {
            Some(s) => Some(s.as_str()),
            None => None,
        }
    }

    /// Whether `literal` has a symbol.
    pub fn contains(&self, literal: &str) -> (r: bool)
        ensures
            r == self@.contains_key(literal@),
    {
        self.map.contains_key(literal)
    }

    /// Gives `literal` the symbol `name`.
    pub fn insert(&mut self, literal: String, name: String)
        ensures
            final(self)@ == old(self)@.insert(literal@, name@),
    {
        let ghost k = literal@;
        let ghost v = name@;
        self.map.insert(literal, name);
        assert(self@ =~= old(self)@.insert(k, v));
    }

    /// The number of literals.
    pub fn len(&self) -> (r: usize)
        ensures
            r == self@.len(),
    {
        broadcast use vstd::hash_map::group_hash_map_axioms;
        assert(self@.dom() =~= self.map@.dom());
        self.map.len()
    }

    /// Whether there is no literal.
    pub fn is_empty(&self) -> (r: bool)
        ensures
            r == (self@.len() == 0),
    {
        self.len() == 0
    }
}

/// The symbol of the `n`-th distinct string literal of a program.
pub open spec fn literal_symbol(n: nat) -> Seq<char> {
    "@.str."@ + decimal(n)
}

/// `m` with the literal `s` given the next symbol, unless it has one.
pub open spec fn add_literal(m: Map<Seq<char>, Seq<char>>, s: Seq<char>) -> Map<Seq<char>, Seq<char>> {
    if m.contains_key(s) { m } else { m.insert(s, literal_symbol(m.len())) }
}

/// `m` with each of `ss` added in turn (see `add_literal`).
pub open spec fn add_literals(m: Map<Seq<char>, Seq<char>>, ss: Seq<Seq<char>>) -> Map<Seq<char>, Seq<char>>
    decreases ss.len(),
{
    if ss.len() == 0 { m } else { add_literal(add_literals(m, ss.drop_last()), ss.last()) }
}

/// Adding two lists of literals is adding the first, then the second.
pub proof fn lemma_add_literals_concat(m: Map<Seq<char>, Seq<char>>, a: Seq<Seq<char>>, b: Seq<Seq<char>>)
    ensures
        add_literals(m, a + b) == add_literals(add_literals(m, a), b),
    decreases b.len(),
{
    if b.len() == 0 {
        assert(a + b =~= a);
    } else {
        assert((a + b).drop_last() =~= a + b.drop_last());
        lemma_add_literals_concat(m, a, b.drop_last());
    }
}

/// The string constants among `ops`, in order.
pub open spec fn operand_literals(ops: Seq<Operand>) -> Seq<Seq<char>>
    decreases ops.len(),
{
    if ops.len() == 0 {
        seq![]
    } else {
        operand_literals(ops.drop_last()) + match ops.last() {
            Operand::Const(ConstValue::String(s)) => seq![s@],
            _ => seq![],
        }
    }
}

/// The string literals an instruction names, in order: its string constant
/// operands (a string constant it defines), and for a builtin call, after its
/// arguments, the builtin's package and name.
pub open spec fn instr_literals(instr: Instr) -> Seq<Seq<char>> {
    match instr {
        Instr::Const { value: ConstValue::String(v), .. } => seq![v@],
        Instr::Copy { src, .. } => operand_literals(seq![src]),
        Instr::Unary { operand, .. } => operand_literals(seq![operand]),
        Instr::Binary { left, right, .. } => operand_literals(seq![left, right]),
        Instr::Compare { left, right, .. } => operand_literals(seq![left, right]),
        Instr::StoreGlobal { value, .. } => operand_literals(seq![value]),
        Instr::StoreLocal { value, .. } => operand_literals(seq![value]),
        Instr::CallDirect { args, .. } => operand_literals(args@),
        Instr::CallBuiltin { builtin, args, .. } => operand_literals(args@) + seq![builtin.package@, builtin.name@],
        Instr::CallIndirect { callee, args, .. } => operand_literals(seq![callee] + args@),
        Instr::MakeArray { items, .. } => operand_literals(items@),
        Instr::MakeArrayRepeat { value, .. } => operand_literals(seq![value]),
        Instr::ArrayGet { array, index, .. } => operand_literals(seq![array, index]),
        Instr::VecGet { vec, index, .. } => operand_literals(seq![vec, index]),
        Instr::StructGet { base, .. } => operand_literals(seq![base]),
        Instr::ArraySet { array, index, value, .. } => operand_literals(seq![array, index, value]),
        Instr::VecSet { vec, index, value, .. } => operand_literals(seq![vec, index, value]),
        Instr::VecPush { vec, value } => operand_literals(seq![vec, value]),
        Instr::VecDelete { vec, index, .. } => operand_literals(seq![vec, index]),
        Instr::VecLen { vec, .. } => operand_literals(seq![vec]),
        Instr::MakeStruct { fields, .. } => operand_literals(fields@),
        Instr::StructSet { base, value, .. } => operand_literals(seq![base, value]),
        _ => seq![],
    }
}

/// The string literals of a sequence of instructions, in order.
pub open spec fn instrs_literals(instrs: Seq<Instr>) -> Seq<Seq<char>>
    decreases instrs.len(),
{
    if instrs.len() == 0 { seq![] } else { instrs_literals(instrs.drop_last()) + instr_literals(instrs.last()) }
}

/// The string literal a terminator names: that of a returned string constant.
pub open spec fn terminator_literals(t: Terminator) -> Seq<Seq<char>> {
    match t {
        Terminator::Return(Some(Operand::Const(ConstValue::String(v)))) => seq![v@],
        _ => seq![],
    }
}

/// The string literals of a block: its instructions', then its terminator's.
pub open spec fn block_literals(b: BasicBlock) -> Seq<Seq<char>> {
    instrs_literals(b.instrs@) + terminator_literals(b.terminator)
}

/// The string literals of a sequence of blocks, in order.
pub open spec fn blocks_literals(blocks: Seq<BasicBlock>) -> Seq<Seq<char>>
    decreases blocks.len(),
{
    if blocks.len() == 0 { seq![] } else { blocks_literals(blocks.drop_last()) + block_literals(blocks.last()) }
}

/// The string literals of a sequence of functions, in order.
pub open spec fn functions_literals(funcs: Seq<IrFunction>) -> Seq<Seq<char>>
    decreases funcs.len(),
{
    if funcs.len() == 0 { seq![] } else { functions_literals(funcs.drop_last()) + blocks_literals(funcs.last().blocks@) }
}

/// The symbols of a program's string literals: each distinct literal, in
/// the order they first occur, gets `@.str.` and the number of literals
/// before it.
pub open spec fn literal_symbols(program: IrProgram) -> Map<Seq<char>, Seq<char>> {
    add_literals(Map::empty(), functions_literals(program.functions@))
}

fn add_literal_text(value: &str, literals: &mut StringLiterals)
    ensures
        final(literals)@ == add_literal(old(literals)@, value@),
{
    if !literals.contains(value) {
        let mut name = String::from_str("@.str.");
        name.append(usize_text(literals.len()).as_str());
        literals.insert(value.to_string(), name);
    }
}

fn add_operand_literal(op: &Operand, literals: &mut StringLiterals)
    ensures
        final(literals)@ == add_literals(old(literals)@, operand_literals(seq![*op])),
{
    proof {
        reveal_with_fuel(operand_literals, 2);
        assert(seq![*op].drop_last() =~= Seq::<Operand>::empty());
    }
    if let Operand::Const(ConstValue::String(value)) = op {
        add_literal_text(value.as_str(), literals);
        proof {
            reveal_with_fuel(add_literals, 2);
            assert(seq![value@].drop_last() =~= Seq::<Seq<char>>::empty());
        }
    }
}

fn add_operand_literals(ops: &[Operand], literals: &mut StringLiterals)
    ensures
        final(literals)@ == add_literals(old(literals)@, operand_literals(ops@)),
{
    let mut i: usize = 0;
    while i < ops.len()
        invariant
            i <= ops@.len(),
            literals@ == add_literals(old(literals)@, operand_literals(ops@.take(i as int))),
        decreases ops@.len() - i,
    {
        let ghost before = literals@;
        add_operand_literal(&ops[i], literals);
        proof {
            assert(ops@.take(i + 1).drop_last() =~= ops@.take(i as int));
            reveal_with_fuel(operand_literals, 2);
            assert(seq![ops@[i as int]].drop_last() =~= Seq::<Operand>::empty());
            assert(operand_literals(seq![ops@[i as int]]) == operand_literals(Seq::<Operand>::empty()) + match ops@[i as int] {
                Operand::Const(ConstValue::String(s)) => seq![s@],
                _ => seq![],
            });
            assert(operand_literals(ops@.take(i + 1)) =~= operand_literals(ops@.take(i as int)) + operand_literals(seq![ops@[i as int]]));
            lemma_add_literals_concat(old(literals)@, operand_literals(ops@.take(i as int)), operand_literals(seq![ops@[i as int]]));
        }
        i += 1;
    }
    assert(ops@.take(i as int) =~= ops@);
}

proof fn lemma_operand_literals_concat(a: Seq<Operand>, b: Seq<Operand>)
    ensures
        operand_literals(a + b) == operand_literals(a) + operand_literals(b),
    decreases b.len(),
{
    if b.len() == 0 {
        assert(a + b =~= a);
        assert(operand_literals(a) + operand_literals(b) =~= operand_literals(a));
    } else {
        assert((a + b).drop_last() =~= a + b.drop_last());
        lemma_operand_literals_concat(a, b.drop_last());
        assert(operand_literals(a + b) =~= operand_literals(a) + operand_literals(b));
    }
}

proof fn lemma_two_operands(m: Map<Seq<char>, Seq<char>>, x: Operand, y: Operand)
    ensures
        add_literals(add_literals(m, operand_literals(seq![x])), operand_literals(seq![y])) == add_literals(m, operand_literals(seq![x, y])),
{
    lemma_operand_literals_concat(seq![x], seq![y]);
    assert(seq![x] + seq![y] =~= seq![x, y]);
    lemma_add_literals_concat(m, operand_literals(seq![x]), operand_literals(seq![y]));
}

proof fn lemma_three_operands(m: Map<Seq<char>, Seq<char>>, x: Operand, y: Operand, z: Operand)
    ensures
        add_literals(add_literals(add_literals(m, operand_literals(seq![x])), operand_literals(seq![y])), operand_literals(seq![z]))
            == add_literals(m, operand_literals(seq![x, y, z])),
{
    lemma_two_operands(m, x, y);
    lemma_operand_literals_concat(seq![x, y], seq![z]);
    assert(seq![x, y] + seq![z] =~= seq![x, y, z]);
    lemma_add_literals_concat(m, operand_literals(seq![x, y]), operand_literals(seq![z]));
}

/// Adds the string literals of `instr` (see `instr_literals`).
fn collect_instr_string_literals(instr: &Instr, literals: &mut StringLiterals)
    ensures
        final(literals)@ == add_literals(old(literals)@, instr_literals(*instr)),
{
    let ghost m = literals@;
    match instr {
        Instr::Const { value: ConstValue::String(value), .. } => {
            add_literal_text(value.as_str(), literals);
            proof {
                reveal_with_fuel(add_literals, 2);
                assert(seq![value@].drop_last() =~= Seq::<Seq<char>>::empty());
            }
        },
        Instr::Copy { src: a, .. } | Instr::Unary { operand: a, .. } | Instr::StoreGlobal { value: a, .. }
        | Instr::StoreLocal { value: a, .. } | Instr::MakeArrayRepeat { value: a, .. } | Instr::StructGet { base: a, .. }
        | Instr::VecLen { vec: a, .. } => {
            add_operand_literal(a, literals);
        },
        Instr::Binary { left: a, right: b, .. } | Instr::Compare { left: a, right: b, .. }
        | Instr::ArrayGet { array: a, index: b, .. } | Instr::VecGet { vec: a, index: b, .. }
        | Instr::VecPush { vec: a, value: b } | Instr::VecDelete { vec: a, index: b, .. }
        | Instr::StructSet { base: a, value: b, .. } => {
            add_operand_literal(a, literals);
            add_operand_literal(b, literals);
            proof {
                lemma_two_operands(m, *a, *b);
            }
        },
        Instr::ArraySet { array: a, index: b, value: c, .. } | Instr::VecSet { vec: a, index: b, value: c, .. } => {
            add_operand_literal(a, literals);
            add_operand_literal(b, literals);
            add_operand_literal(c, literals);
            proof {
                lemma_three_operands(m, *a, *b, *c);
            }
        },
        Instr::CallDirect { args: ops, .. } | Instr::MakeArray { items: ops, .. } | Instr::MakeStruct { fields: ops, .. } => {
            add_operand_literals(ops.as_slice(), literals);
        },
        Instr::CallBuiltin { builtin, args, .. } => {
            add_operand_literals(args.as_slice(), literals);
            let ghost mid = literals@;
            add_literal_text(builtin.package.as_str(), literals);
            add_literal_text(builtin.name.as_str(), literals);
            proof {
                reveal_with_fuel(add_literals, 3);
                let pair = seq![builtin.package@, builtin.name@];
                assert(pair.drop_last() =~= seq![builtin.package@]);
                assert(seq![builtin.package@].drop_last() =~= Seq::<Seq<char>>::empty());
                lemma_add_literals_concat(m, operand_literals(args@), pair);
            }
        },
        Instr::CallIndirect { callee, args, .. } => {
            add_operand_literal(callee, literals);
            add_operand_literals(args.as_slice(), literals);
            proof {
                lemma_operand_literals_concat(seq![*callee], args@);
                lemma_add_literals_concat(m, operand_literals(seq![*callee]), operand_literals(args@));
            }
        },
        _ => {},
    }
}

fn collect_block_literals(block: &BasicBlock, literals: &mut StringLiterals)
    ensures
        final(literals)@ == add_literals(old(literals)@, block_literals(*block)),
{
    let ghost m = literals@;
    let mut i: usize = 0;
    while i < block.instrs.len()
        invariant
            i <= block.instrs@.len(),
            literals@ == add_literals(m, instrs_literals(block.instrs@.take(i as int))),
        decreases block.instrs@.len() - i,
    {
        collect_instr_string_literals(&block.instrs[i], literals);
        proof {
            assert(block.instrs@.take(i + 1).drop_last() =~= block.instrs@.take(i as int));
            lemma_add_literals_concat(m, instrs_literals(block.instrs@.take(i as int)), instr_literals(block.instrs@[i as int]));
        }
        i += 1;
    }
    assert(block.instrs@.take(i as int) =~= block.instrs@);
    let ghost mid = literals@;
    if let Terminator::Return(Some(Operand::Const(ConstValue::String(value)))) = &block.terminator {
        add_literal_text(value.as_str(), literals);
        proof {
            reveal_with_fuel(add_literals, 2);
            assert(seq![value@].drop_last() =~= Seq::<Seq<char>>::empty());
        }
    }
    proof {
        lemma_add_literals_concat(m, instrs_literals(block.instrs@), terminator_literals(block.terminator));
    }
}

/// The symbols of the string literals of `program` (see `literal_symbols`).
pub fn collect_string_literals(program: &IrProgram) -> (r: StringLiterals)
    ensures
        r@ == literal_symbols(*program),
{
    let mut literals = StringLiterals::new();
    let mut f: usize = 0;
    while f < program.functions.len()
        invariant
            f <= program.functions@.len(),
            literals@ == add_literals(Map::empty(), functions_literals(program.functions@.take(f as int))),
        decreases program.functions@.len() - f,
    {
        let func = &program.functions[f];
        let ghost before = functions_literals(program.functions@.take(f as int));
        let mut b: usize = 0;
        while b < func.blocks.len()
            invariant
                b <= func.blocks@.len(),
                literals@ == add_literals(Map::empty(), before + blocks_literals(func.blocks@.take(b as int))),
            decreases func.blocks@.len() - b,
        {
            collect_block_literals(&func.blocks[b], &mut literals);
            proof {
                assert(func.blocks@.take(b + 1).drop_last() =~= func.blocks@.take(b as int));
                lemma_add_literals_concat(Map::empty(), before + blocks_literals(func.blocks@.take(b as int)), block_literals(func.blocks@[b as int]));
                lemma_add_literals_concat(Map::empty(), before, blocks_literals(func.blocks@.take(b as int)));
                lemma_add_literals_concat(Map::empty(), before, blocks_literals(func.blocks@.take(b + 1)));
                assert(before + blocks_literals(func.blocks@.take(b + 1)) =~= (before + blocks_literals(func.blocks@.take(b as int))) + block_literals(func.blocks@[b as int]));
            }
            b += 1;
        }
        proof {
            assert(func.blocks@.take(b as int) =~= func.blocks@);
            assert(program.functions@.take(f + 1).drop_last() =~= program.functions@.take(f as int));
        }
        f += 1;
    }
    assert(program.functions@.take(f as int) =~= program.functions@);
    literals
}

/// The uppercase hexadecimal digit for `d < 16`.
pub open spec fn hex_upper(d: nat) -> char {
    if d < 10 {
        crate::text::digit_char(d)
    } else if d == 10 { 'A' } else if d == 11 { 'B' } else if d == 12 { 'C' } else if d == 13 { 'D' } else if d == 14 { 'E' } else { 'F' }
}

/// Whether a byte stands for itself in a C string constant: printable ASCII
/// other than backslash and double quote.
pub open spec fn byte_is_plain(b: u8) -> bool {
    32 <= b <= 126 && b != 92 && b != 34
}

/// How a byte is written in an LLVM C string constant: itself where plain,
/// else a backslash and its two uppercase hexadecimal digits.
pub open spec fn byte_escape(b: u8) -> Seq<char> {
    if byte_is_plain(b) {
        seq![b as char]
    } else {
        seq!['\\', hex_upper((b / 16) as nat), hex_upper((b % 16) as nat)]
    }
}

/// The escapes of `bytes`, in order.
pub open spec fn c_escape(bytes: Seq<u8>) -> Seq<char>
    decreases bytes.len(),
{
    if bytes.len() == 0 { seq![] } else { c_escape(bytes.drop_last()) + byte_escape(bytes.last()) }
}

/// The body of the LLVM C string constant of `s`: its UTF-8 bytes escaped,
/// then the escape of the terminating NUL.
pub open spec fn c_string(s: Seq<char>) -> Seq<char> {
    c_escape(utf8(s)) + "\\00"@
}

proof fn lemma_c_escape_concat(a: Seq<u8>, b: Seq<u8>)
    ensures
        c_escape(a + b) == c_escape(a) + c_escape(b),
    decreases b.len(),
{
    if b.len() == 0 {
        assert(a + b =~= a);
        assert(c_escape(a) + c_escape(b) =~= c_escape(a));
    } else {
        assert((a + b).drop_last() =~= a + b.drop_last());
        lemma_c_escape_concat(a, b.drop_last());
        assert(c_escape(a + b) =~= c_escape(a) + c_escape(b));
    }
}

proof fn lemma_utf8_push(s: Seq<char>, c: char)
    ensures
        utf8(s.push(c)) == utf8(s) + vstd::utf8::encode_scalar(c as u32),
    decreases s.len(),
{
    if s.len() == 0 {
        reveal_with_fuel(vstd::utf8::encode_utf8, 2);
        assert(s.push(c).drop_first() =~= Seq::<char>::empty());
        assert(utf8(s.push(c)) =~= vstd::utf8::encode_scalar(c as u32));
        assert(utf8(s) + vstd::utf8::encode_scalar(c as u32) =~= vstd::utf8::encode_scalar(c as u32));
    } else {
        assert(s.push(c).drop_first() =~= s.drop_first().push(c));
        lemma_utf8_push(s.drop_first(), c);
        assert(utf8(s.push(c)) =~= utf8(s) + vstd::utf8::encode_scalar(c as u32));
    }
}

fn hex_upper_str(d: u8) -> (r: &'static str)
    requires
        d < 16,
    ensures
        r@ == seq![hex_upper(d as nat)],
{
    proof {
        reveal_strlit("0"); reveal_strlit("1"); reveal_strlit("2"); reveal_strlit("3");
        reveal_strlit("4"); reveal_strlit("5"); reveal_strlit("6"); reveal_strlit("7");
        reveal_strlit("8"); reveal_strlit("9"); reveal_strlit("A"); reveal_strlit("B");
        reveal_strlit("C"); reveal_strlit("D"); reveal_strlit("E"); reveal_strlit("F");
    }
    if d == 0 { "0" } else if d == 1 { "1" } else if d == 2 { "2" } else if d == 3 { "3" }
    else if d == 4 { "4" } else if d == 5 { "5" } else if d == 6 { "6" } else if d == 7 { "7" }
    else if d == 8 { "8" } else if d == 9 { "9" } else if d == 10 { "A" } else if d == 11 { "B" }
    else if d == 12 { "C" } else if d == 13 { "D" } else if d == 14 { "E" } else { "F" }
}

fn push_byte_escape(out: &mut String, b: u8)
    requires
        !byte_is_plain(b),
    ensures
        final(out)@ == old(out)@ + byte_escape(b),
{
    proof {
        reveal_strlit("\\");
    }
    out.append("\\");
    out.append(hex_upper_str(b / 16));
    out.append(hex_upper_str(b % 16));
}

#[verifier::rlimit(30)]
fn push_char_c_escape(out: &mut String, value: &str, i: usize)
    requires
        i < value@.len(),
        value@.len() <= usize::MAX,
    ensures
        final(out)@ == old(out)@ + c_escape(vstd::utf8::encode_scalar(value@[i as int] as u32)),
{
    let c = value.get_char(i);
    let v = c as u32;
    proof {
        vstd::utf8::char_is_scalar(c);
        reveal_with_fuel(c_escape, 5);
    }
    let ghost bytes = vstd::utf8::encode_scalar(v);
    if 32 <= v && v <= 126 && v != 92 && v != 34 {
        let one = value.substring_char(i, i + 1);
        proof {
            assert((v & 0x7F) == v) by (bit_vector)
                requires
                    v <= 126;
            assert(bytes == seq![v as u8]);
            assert(seq![v as u8].drop_last() =~= Seq::<u8>::empty());
            assert((v as u8) as char == c);
        }
        assert(one@ =~= seq![c]);
        out.append(one);
    } else if v < 0x80 {
        let b = (v & 0x7F) as u8;
        proof {
            assert((v & 0x7F) == v) by (bit_vector)
                requires
                    v < 0x80;
            assert(seq![b].drop_last() =~= Seq::<u8>::empty());
        }
        push_byte_escape(out, b);
    } else if v < 0x800 {
        let b1 = 0xC0 | ((v >> 6) & 0x1F) as u8;
        let b2 = 0x80 | (v & 0x3F) as u8;
        proof {
            assert(b1 >= 0x80 && b2 >= 0x80) by (bit_vector)
                requires
                    b1 == 0xC0 | ((v >> 6) & 0x1F) as u8,
                    b2 == 0x80 | (v & 0x3F) as u8;
            assert(bytes == seq![b1, b2]);
            assert(seq![b1, b2].drop_last() =~= seq![b1]);
            assert(seq![b1].drop_last() =~= Seq::<u8>::empty());
        }
        let ghost before = out@;
        push_byte_escape(out, b1);
        push_byte_escape(out, b2);
        assert(out@ =~= before + c_escape(bytes));
    } else if v < 0x10000 {
        let b1 = 0xE0 | ((v >> 12) & 0x0F) as u8;
        let b2 = 0x80 | ((v >> 6) & 0x3F) as u8;
        let b3 = 0x80 | (v & 0x3F) as u8;
        proof {
            assert(b1 >= 0x80 && b2 >= 0x80 && b3 >= 0x80) by (bit_vector)
                requires
                    b1 == 0xE0 | ((v >> 12) & 0x0F) as u8,
                    b2 == 0x80 | ((v >> 6) & 0x3F) as u8,
                    b3 == 0x80 | (v & 0x3F) as u8;
            assert(bytes == seq![b1, b2, b3]);
            assert(seq![b1, b2, b3].drop_last() =~= seq![b1, b2]);
            assert(seq![b1, b2].drop_last() =~= seq![b1]);
            assert(seq![b1].drop_last() =~= Seq::<u8>::empty());
        }
        let ghost before = out@;
        push_byte_escape(out, b1);
        push_byte_escape(out, b2);
        push_byte_escape(out, b3);
        assert(out@ =~= before + c_escape(bytes));
    } else {
        let b1 = 0xF0 | ((v >> 18) & 0x7) as u8;
        let b2 = 0x80 | ((v >> 12) & 0x3F) as u8;
        let b3 = 0x80 | ((v >> 6) & 0x3F) as u8;
        let b4 = 0x80 | (v & 0x3F) as u8;
        proof {
            assert(b1 >= 0x80 && b2 >= 0x80 && b3 >= 0x80 && b4 >= 0x80) by (bit_vector)
                requires
                    b1 == 0xF0 | ((v >> 18) & 0x7) as u8,
                    b2 == 0x80 | ((v >> 12) & 0x3F) as u8,
                    b3 == 0x80 | ((v >> 6) & 0x3F) as u8,
                    b4 == 0x80 | (v & 0x3F) as u8;
            assert(bytes == seq![b1, b2, b3, b4]);
            assert(seq![b1, b2, b3, b4].drop_last() =~= seq![b1, b2, b3]);
            assert(seq![b1, b2, b3].drop_last() =~= seq![b1, b2]);
            assert(seq![b1, b2].drop_last() =~= seq![b1]);
            assert(seq![b1].drop_last() =~= Seq::<u8>::empty());
        }
        let ghost before = out@;
        push_byte_escape(out, b1);
        push_byte_escape(out, b2);
        push_byte_escape(out, b3);
        push_byte_escape(out, b4);
        assert(out@ =~= before + c_escape(bytes));
    }
}

/// The body of the LLVM C string constant of `value` (see `c_string`).
pub fn encode_c_string(value: &str) -> (r: String)
    ensures
        r@ == c_string(value@),
{
    let n = value.unicode_len();
    let mut out = String::new();
    let mut i: usize = 0;
    while i < n
        invariant
            i <= n,
            n == value@.len(),
            out@ == c_escape(utf8(value@.take(i as int))),
        decreases n - i,
    {
        push_char_c_escape(&mut out, value, i);
        proof {
            assert(value@.take(i + 1) =~= value@.take(i as int).push(value@[i as int]));
            lemma_utf8_push(value@.take(i as int), value@[i as int]);
            lemma_c_escape_concat(utf8(value@.take(i as int)), vstd::utf8::encode_scalar(value@[i as int] as u32));
        }
        i += 1;
    }
    assert(value@.take(n as int) =~= value@);
    out.append("\\00");
    out
}

/// The position of the first occurrence of `pat` in `s` at or after `from`.
pub open spec fn first_match(s: Seq<char>, pat: Seq<char>, from: int) -> Option<int>
    decreases s.len() + 1 - from,
{
    if from < 0 || from > s.len() {
        None
    } else if from + pat.len() <= s.len() && s.subrange(from, from + pat.len()) == pat {
        Some(from)
    } else {
        first_match(s, pat, from + 1)
    }
}

proof fn lemma_first_match_none(s: Seq<char>, pat: Seq<char>, from: int)
    requires
        0 <= from,
        from + pat.len() > s.len(),
    ensures
        first_match(s, pat, from) is None,
    decreases s.len() + 1 - from,
{
    if from <= s.len() {
        lemma_first_match_none(s, pat, from + 1);
    }
}

/// The runtime counterpart of a literal's symbol: the first `@.str.` in it
/// written `@.rtstr.`.
pub open spec fn runtime_symbol(raw: Seq<char>) -> Seq<char> {
    match first_match(raw, "@.str."@, 0) {
        Some(k) => raw.subrange(0, k) + "@.rtstr."@ + raw.subrange(k + "@.str."@.len(), raw.len() as int),
        None => raw,
    }
}

/// The runtime counterpart of the literal symbol `raw_symbol` (see `runtime_symbol`).
pub fn runtime_string_symbol(raw_symbol: &str) -> (r: String)
    ensures
        r@ == runtime_symbol(raw_symbol@),
{
    let pat = "@.str.";
    proof {
        reveal_strlit("@.str.");
    }
    let n = raw_symbol.unicode_len();
    let m = pat.unicode_len();
    if n < m {
        proof {
            lemma_first_match_none(raw_symbol@, pat@, 0);
        }
        return raw_symbol.to_string();
    }
    let mut k: usize = 0;
    while k <= n - m
        invariant
            n == raw_symbol@.len(),
            m == pat@.len(),
            pat@ == "@.str."@,
            m == 6,
            m <= n,
            k <= n - m + 1,
            first_match(raw_symbol@, pat@, 0) == first_match(raw_symbol@, pat@, k as int),
        decreases n - m + 1 - k,
    {
        let window = raw_symbol.substring_char(k, k + m);
        if text_eq(window, pat) {
            assert(first_match(raw_symbol@, pat@, k as int) == Some(k as int));
            let mut out = raw_symbol.substring_char(0, k).to_string();
            out.append("@.rtstr.");
            out.append(raw_symbol.substring_char(k + m, n));
            return out;
        }
        k += 1;
    }
    proof {
        lemma_first_match_none(raw_symbol@, pat@, k as int);
    }
    raw_symbol.to_string()
}

/// The symbols of a literal table are `@.str.0` up to the number of
/// literals, each given to exactly one literal.
pub open spec fn numbered_symbols(m: Map<Seq<char>, Seq<char>>) -> bool {
    &&& m.dom().finite()
    &&& forall|k: Seq<char>| #[trigger] m.dom().contains(k) ==> exists|i: nat| i < m.len() && m[k] == literal_symbol(i)
    &&& forall|k1: Seq<char>, k2: Seq<char>| #[trigger] m.dom().contains(k1) && #[trigger] m.dom().contains(k2) && k1 != k2 ==> m[k1] != m[k2]
}

proof fn lemma_literal_symbol_injective(i: nat, j: nat)
    requires
        literal_symbol(i) == literal_symbol(j),
    ensures
        i == j,
{
    lemma_prefix_cancel("@.str."@, decimal(i), decimal(j));
    lemma_decimal_injective(i, j);
}

proof fn lemma_add_literal_numbered(m: Map<Seq<char>, Seq<char>>, s: Seq<char>)
    requires
        numbered_symbols(m),
    ensures
        numbered_symbols(add_literal(m, s)),
{
    if !m.dom().contains(s) {
        let n = m.insert(s, literal_symbol(m.len()));
        assert(n.len() == m.len() + 1);
        assert forall|k: Seq<char>| #[trigger] n.dom().contains(k) implies exists|i: nat| i < n.len() && n[k] == literal_symbol(i) by {
            if k == s {
                assert(n[k] == literal_symbol(m.len()));
            } else {
                let i = choose|i: nat| i < m.len() && m[k] == literal_symbol(i);
                assert(n[k] == literal_symbol(i));
            }
        }
        assert forall|k1: Seq<char>, k2: Seq<char>| #[trigger] n.dom().contains(k1) && #[trigger] n.dom().contains(k2) && k1 != k2
            implies n[k1] != n[k2] by {
            if k1 == s && m.dom().contains(k2) {
                let i = choose|i: nat| i < m.len() && m[k2] == literal_symbol(i);
                if n[k1] == n[k2] {
                    lemma_literal_symbol_injective(m.len(), i);
                }
            } else if k2 == s && m.dom().contains(k1) {
                let i = choose|i: nat| i < m.len() && m[k1] == literal_symbol(i);
                if n[k1] == n[k2] {
                    lemma_literal_symbol_injective(m.len(), i);
                }
            }
        }
    }
}

proof fn lemma_add_literals_numbered(m: Map<Seq<char>, Seq<char>>, ss: Seq<Seq<char>>)
    requires
        numbered_symbols(m),
    ensures
        numbered_symbols(add_literals(m, ss)),
        forall|k: Seq<char>| #[trigger] add_literals(m, ss).dom().contains(k) <==> m.dom().contains(k) || ss.contains(k),
    decreases ss.len(),
{
    if ss.len() > 0 {
        lemma_add_literals_numbered(m, ss.drop_last());
        lemma_add_literal_numbered(add_literals(m, ss.drop_last()), ss.last());
        assert forall|k: Seq<char>| #[trigger] add_literals(m, ss).dom().contains(k) <==> m.dom().contains(k) || ss.contains(k) by {
            if ss.contains(k) && !ss.drop_last().contains(k) {
                let i = choose|i: int| 0 <= i < ss.len() && ss[i] == k;
                if i < ss.len() - 1 {
                    assert(ss.drop_last()[i] == k);
                }
            }
            if ss.drop_last().contains(k) {
                let i = choose|i: int| 0 <= i < ss.drop_last().len() && ss.drop_last()[i] == k;
                assert(ss[i] == k);
            }
            if k == ss.last() {
                assert(ss[ss.len() - 1] == k);
            }
        }
    }
}

/// Every string literal of a program has a symbol, nothing else has one,
/// and no two literals share a symbol: the symbols are `@.str.0` up to
/// the number of distinct literals.
pub proof fn lemma_literal_symbols_distinct(program: IrProgram)
    ensures
        forall|s: Seq<char>| #[trigger] literal_symbols(program).dom().contains(s) <==> functions_literals(program.functions@).contains(s),
        numbered_symbols(literal_symbols(program)),
{
    assert(numbered_symbols(Map::<Seq<char>, Seq<char>>::empty()));
    lemma_add_literals_numbered(Map::empty(), functions_literals(program.functions@));
}

/// The runtime counterpart of the symbol of literal `n` is `@.rtstr.` and `n`.
pub proof fn lemma_runtime_symbol_of_literal(n: nat)
    ensures
        runtime_symbol(literal_symbol(n)) == "@.rtstr."@ + decimal(n),
{
    reveal_strlit("@.str.");
    let s = literal_symbol(n);
    assert(s.subrange(0, 6) =~= "@.str."@);
    assert(first_match(s, "@.str."@, 0) == Some(0int));
    assert(s.subrange(0, 0) =~= Seq::<char>::empty());
    assert(s.subrange(6, s.len() as int) =~= decimal(n));
    assert(runtime_symbol(s) =~= "@.rtstr."@ + decimal(n));
}

/// What a C string constant's body holds is printable ASCII without a double
/// quote, so it stands between the quotes of `c"..."` as it is.
pub proof fn lemma_c_string_printable(s: Seq<char>)
    ensures
        forall|i: int| 0 <= i < c_string(s).len() ==> 32 <= #[trigger] (c_string(s)[i] as u32) <= 126 && c_string(s)[i] != '"',
{
    lemma_c_escape_printable(utf8(s));
    reveal_strlit("\\00");
    let e = c_escape(utf8(s));
    assert forall|i: int| 0 <= i < c_string(s).len() implies 32 <= #[trigger] (c_string(s)[i] as u32) <= 126 && c_string(s)[i] != '"' by {
        if i < e.len() {
            assert(c_string(s)[i] == e[i]);
        } else {
            assert(c_string(s)[i] == "\\00"@[i - e.len()]);
        }
    }
}

proof fn lemma_c_escape_printable(bytes: Seq<u8>)
    ensures
        forall|i: int| 0 <= i < c_escape(bytes).len() ==> 32 <= #[trigger] (c_escape(bytes)[i] as u32) <= 126 && c_escape(bytes)[i] != '"',
    decreases bytes.len(),
{
    if bytes.len() > 0 {
        lemma_c_escape_printable(bytes.drop_last());
        let prev = c_escape(bytes.drop_last());
        let last = byte_escape(bytes.last());
        let b = bytes.last();
        assert forall|j: int| 0 <= j < last.len() implies 32 <= #[trigger] (last[j] as u32) <= 126 && last[j] != '"' by {
            if !byte_is_plain(b) {
                assert(hex_upper((b / 16) as nat) != '"');
            }
        }
        assert forall|i: int| 0 <= i < c_escape(bytes).len() implies 32 <= #[trigger] (c_escape(bytes)[i] as u32) <= 126 && c_escape(bytes)[i] != '"' by {
            if i < prev.len() {
                assert(c_escape(bytes)[i] == prev[i]);
            } else {
                assert(c_escape(bytes)[i] == last[i - prev.len()]);
            }
        }
    }
}

} // verus!
