//! Reading the byte format back: each reader is specified by a function on
//! the bytes and a position, giving what was read and where reading stopped,
//! or the message of the failure.

use vstd::prelude::*;
use vstd::string::StringExecFns;

use crate::bytecode::{
    chunk_view, code_view, instr_parts, module_view, shape_view, value_view, values_view, BytecodeModule, ChunkV, FieldV,
    FunctionChunk, Instr, IntLocalConstOp, ModuleV, ShapeV, StructShape, Value, ValueV,
};
use crate::codegen::texts;
use crate::text::{bytes_eq, decimal, text_eq, u64_text};

verus! {

broadcast use vstd::std_specs::vec::group_vec_axioms;

impl View for Value {
    type V = ValueV;

    open spec fn view(&self) -> ValueV {
        value_view(*self)
    }
}

impl View for IntLocalConstOp {
    type V = IntLocalConstOp;

    open spec fn view(&self) -> IntLocalConstOp {
        *self
    }
}

/// What a reader gives back: the item read and where reading stopped, or the
/// message of the failure.
pub type Read<T> = Result<(T, int), Seq<char>>;

/// An executable reader's result `r`, reading having stopped at `end`, is the
/// specified result `s`.
pub open spec fn agrees<T: View>(r: Result<T, String>, end: int, s: Read<T::V>) -> bool {
    match (r, s) {
        (Ok(x), Ok((y, j))) => x@ == y && end == j,
        (Err(m), Err(e)) => m@ == e,
        _ => false,
    }
}

/// The failure of reading past the end.
pub open spec fn eof_text() -> Seq<char> {
    "Unexpected EOF while decoding bytecode"@
}

/// The number whose bytes, least significant first, are `b`.
pub open spec fn le_value(b: Seq<u8>) -> nat
    decreases b.len(),
{
    if b.len() == 0 {
        0
    } else {
        b[0] as nat + 256 * le_value(b.drop_first())
    }
}

/// The text that `std` gives for the bytes `bytes`, which are not UTF-8.
pub uninterp spec fn utf8_error_text(bytes: Seq<u8>) -> Seq<char>;

/// A byte.
pub open spec fn read_byte(b: Seq<u8>, i: int) -> Read<u8> {
    if i + 1 > b.len() { Err(eof_text()) } else { Ok((b[i], i + 1)) }
}

/// A `u32` in four bytes.
pub open spec fn read_word(b: Seq<u8>, i: int) -> Read<u32> {
    if i + 4 > b.len() { Err(eof_text()) } else { Ok((le_value(b.subrange(i, i + 4)) as u32, i + 4)) }
}

/// A `u64` in eight bytes.
pub open spec fn read_long(b: Seq<u8>, i: int) -> Read<u64> {
    if i + 8 > b.len() { Err(eof_text()) } else { Ok((le_value(b.subrange(i, i + 8)) as u64, i + 8)) }
}

/// An `i64` in eight bytes.
pub open spec fn read_int(b: Seq<u8>, i: int) -> Read<i64> {
    match read_long(b, i) {
        Ok((x, j)) => Ok((x as i64, j)),
        Err(e) => Err(e),
    }
}

/// A text: a length in four bytes, then that many bytes of UTF-8.
pub open spec fn read_text(b: Seq<u8>, i: int) -> Read<Seq<char>> {
    match read_word(b, i) {
        Err(e) => Err(e),
        Ok((n, j)) => if j + n > b.len() {
            Err(eof_text())
        } else if vstd::utf8::valid_utf8(b.subrange(j, j + n)) {
            Ok((vstd::utf8::decode_utf8(b.subrange(j, j + n)), j + n))
        } else {
            Err(utf8_error_text(b.subrange(j, j + n)))
        },
    }
}

/// `n` texts.
pub open spec fn read_texts(b: Seq<u8>, i: int, n: nat) -> Read<Seq<Seq<char>>>
    decreases n,
{
    if n == 0 {
        Ok((seq![], i))
    } else {
        match read_text(b, i) {
            Err(e) => Err(e),
            Ok((t, j)) => match read_texts(b, j, (n - 1) as nat) {
                Err(e) => Err(e),
                Ok((ts, k)) => Ok((seq![t] + ts, k)),
            },
        }
    }
}

/// `n` slots, each in four bytes.
pub open spec fn read_slots(b: Seq<u8>, i: int, n: nat) -> Read<Seq<usize>>
    decreases n,
{
    if n == 0 {
        Ok((seq![], i))
    } else {
        match read_word(b, i) {
            Err(e) => Err(e),
            Ok((s, j)) => match read_slots(b, j, (n - 1) as nat) {
                Err(e) => Err(e),
                Ok((ss, k)) => Ok((seq![s as usize] + ss, k)),
            },
        }
    }
}

/// The operation with byte `x`, which is below 5.
pub open spec fn op_of(x: u8) -> IntLocalConstOp {
    if x == 0 {
        IntLocalConstOp::Add
    } else if x == 1 {
        IntLocalConstOp::Sub
    } else if x == 2 {
        IntLocalConstOp::Mul
    } else if x == 3 {
        IntLocalConstOp::Div
    } else {
        IntLocalConstOp::Mod
    }
}

/// An operation byte of the instruction named `label`.
pub open spec fn read_op(b: Seq<u8>, i: int, label: Seq<char>) -> Read<IntLocalConstOp> {
    match read_byte(b, i) {
        Err(e) => Err(e),
        Ok((x, j)) => if x < 5 {
            Ok((op_of(x), j))
        } else {
            Err("Unknown "@ + label + " tag "@ + decimal(x as nat))
        },
    }
}

/// A value; `f` bounds how deeply values may nest.
pub open spec fn read_value(b: Seq<u8>, i: int, f: nat) -> Read<ValueV>
    decreases f, 1nat, 0nat,
{
    if f == 0 {
        Err(eof_text())
    } else {
        match read_byte(b, i) {
            Err(e) => Err(e),
            Ok((tag, j)) => if tag == 0 {
                match read_int(b, j) {
                    Ok((x, k)) => Ok((ValueV::Int(x), k)),
                    Err(e) => Err(e),
                }
            } else if tag == 1 {
                match read_long(b, j) {
                    Ok((x, k)) => Ok((ValueV::Float(x), k)),
                    Err(e) => Err(e),
                }
            } else if tag == 2 {
                match read_byte(b, j) {
                    Ok((x, k)) => Ok((ValueV::Bool(x != 0), k)),
                    Err(e) => Err(e),
                }
            } else if tag == 3 {
                match read_text(b, j) {
                    Ok((s, k)) => Ok((ValueV::Str(s), k)),
                    Err(e) => Err(e),
                }
            } else if tag == 4 {
                match read_word(b, j) {
                    Err(e) => Err(e),
                    Ok((n, k)) => match read_values(b, k, n as nat, (f - 1) as nat) {
                        Ok((vs, l)) => Ok((ValueV::Array(vs), l)),
                        Err(e) => Err(e),
                    },
                }
            } else if tag == 5 {
                match read_text(b, j) {
                    Ok((s, k)) => Ok((ValueV::Function(s), k)),
                    Err(e) => Err(e),
                }
            } else if tag == 6 {
                Ok((ValueV::Unit, j))
            } else if tag == 7 {
                match read_text(b, j) {
                    Err(e) => Err(e),
                    Ok((name, k)) => match read_word(b, k) {
                        Err(e) => Err(e),
                        Ok((m, l)) => match read_texts(b, l, m as nat) {
                            Err(e) => Err(e),
                            Ok((names, p)) => match read_word(b, p) {
                                Err(e) => Err(e),
                                Ok((n, q)) => match read_values(b, q, n as nat, (f - 1) as nat) {
                                    Ok((vs, r)) => Ok((ValueV::Struct(name, names, vs), r)),
                                    Err(e) => Err(e),
                                },
                            },
                        },
                    },
                }
            } else if tag == 8 {
                match read_word(b, j) {
                    Ok((x, k)) => Ok((ValueV::FunctionIdx(x as usize), k)),
                    Err(e) => Err(e),
                }
            } else {
                Err("Unknown value tag "@ + decimal(tag as nat))
            },
        }
    }
}

/// `n` values.
pub open spec fn read_values(b: Seq<u8>, i: int, n: nat, f: nat) -> Read<Seq<ValueV>>
    decreases f, 2nat, n,
{
    if n == 0 {
        Ok((seq![], i))
    } else {
        match read_value(b, i, f) {
            Err(e) => Err(e),
            Ok((v, j)) => match read_values(b, j, (n - 1) as nat, f) {
                Err(e) => Err(e),
                Ok((vs, k)) => Ok((seq![v] + vs, k)),
            },
        }
    }
}

/// The kind of an operand, as the opcode fixes it.
pub enum KindV {
    Slot,
    Int,
    Half,
    Op(Seq<char>),
    Text,
    Texts,
    Slots,
    Val,
}

/// An operand of kind `k`.
pub open spec fn read_field(b: Seq<u8>, i: int, k: KindV, f: nat) -> Read<FieldV> {
    match k {
        KindV::Slot => match read_word(b, i) {
            Ok((x, j)) => Ok((FieldV::Slot(x as usize), j)),
            Err(e) => Err(e),
        },
        KindV::Int => match read_int(b, i) {
            Ok((x, j)) => Ok((FieldV::Int(x), j)),
            Err(e) => Err(e),
        },
        KindV::Half => match read_word(b, i) {
            Ok((x, j)) => Ok((FieldV::Half(x as u16), j)),
            Err(e) => Err(e),
        },
        KindV::Op(label) => match read_op(b, i, label) {
            Ok((x, j)) => Ok((FieldV::Op(x), j)),
            Err(e) => Err(e),
        },
        KindV::Text => match read_text(b, i) {
            Ok((x, j)) => Ok((FieldV::Text(x), j)),
            Err(e) => Err(e),
        },
        KindV::Texts => match read_word(b, i) {
            Err(e) => Err(e),
            Ok((n, j)) => match read_texts(b, j, n as nat) {
                Ok((x, k)) => Ok((FieldV::Texts(x), k)),
                Err(e) => Err(e),
            },
        },
        KindV::Slots => match read_word(b, i) {
            Err(e) => Err(e),
            Ok((n, j)) => match read_slots(b, j, n as nat) {
                Ok((x, k)) => Ok((FieldV::Slots(x), k)),
                Err(e) => Err(e),
            },
        },
        KindV::Val => match read_value(b, i, f) {
            Ok((x, j)) => Ok((FieldV::Val(x), j)),
            Err(e) => Err(e),
        },
    }
}

/// Operands of the kinds `ks`, in order.
pub open spec fn read_fields(b: Seq<u8>, i: int, ks: Seq<KindV>, f: nat) -> Read<Seq<FieldV>>
    decreases ks.len(),
{
    if ks.len() == 0 {
        Ok((seq![], i))
    } else {
        match read_field(b, i, ks[0], f) {
            Err(e) => Err(e),
            Ok((x, j)) => match read_fields(b, j, ks.drop_first(), f) {
                Err(e) => Err(e),
                Ok((xs, k)) => Ok((seq![x] + xs, k)),
            },
        }
    }
}

/// The kinds of the operands of the instruction with opcode `tag`, if there is one.
pub open spec fn instr_kinds(tag: u8) -> Option<Seq<KindV>> {
    match tag {
        0 => Some(seq![KindV::Val]),
        1 => Some(seq![KindV::Slot]),
        2 => Some(seq![KindV::Slot]),
        48 => Some(seq![KindV::Slot, KindV::Slot]),
        49 => Some(seq![KindV::Slot, KindV::Int]),
        62 => Some(seq![KindV::Slot, KindV::Slot, KindV::Op("IntLocalLocalOp"@)]),
        61 => Some(seq![KindV::Slot, KindV::Op("IntLocalConstOp"@), KindV::Int]),
        63 => Some(seq![KindV::Slot, KindV::Op("IntStackOpToLocal"@)]),
        3 => Some(seq![KindV::Slot]),
        4 => Some(seq![KindV::Slot]),
        5 => Some(seq![]),
        6 => Some(seq![]),
        7 => Some(seq![]),
        8 => Some(seq![]),
        9 => Some(seq![]),
        10 => Some(seq![]),
        11 => Some(seq![]),
        12 => Some(seq![]),
        13 => Some(seq![]),
        14 => Some(seq![]),
        15 => Some(seq![]),
        16 => Some(seq![]),
        17 => Some(seq![]),
        18 => Some(seq![]),
        19 => Some(seq![]),
        20 => Some(seq![]),
        21 => Some(seq![KindV::Slot]),
        22 => Some(seq![KindV::Slot]),
        23 => Some(seq![KindV::Slot]),
        46 => Some(seq![KindV::Slot, KindV::Int, KindV::Slot]),
        24 => Some(seq![KindV::Text, KindV::Slot]),
        38 => Some(seq![KindV::Slot, KindV::Slot]),
        47 => Some(seq![KindV::Int]),
        51 => Some(seq![KindV::Slot]),
        37 => Some(seq![KindV::Slot]),
        36 => Some(seq![KindV::Text, KindV::Slot]),
        43 => Some(seq![KindV::Slot, KindV::Slot]),
        25 => Some(seq![KindV::Text, KindV::Text, KindV::Slot]),
        41 => Some(seq![KindV::Half, KindV::Slot]),
        52 => Some(seq![]),
        56 => Some(seq![KindV::Slot]),
        53 => Some(seq![KindV::Text]),
        57 => Some(seq![KindV::Slot, KindV::Text]),
        54 => Some(seq![KindV::Int, KindV::Int]),
        58 => Some(seq![KindV::Slot, KindV::Int, KindV::Int]),
        55 => Some(seq![KindV::Text]),
        59 => Some(seq![KindV::Slot, KindV::Text]),
        26 => Some(seq![KindV::Slot]),
        27 => Some(seq![KindV::Slot]),
        28 => Some(seq![]),
        60 => Some(seq![KindV::Slot]),
        29 => Some(seq![]),
        45 => Some(seq![KindV::Slot]),
        50 => Some(seq![KindV::Slot]),
        30 => Some(seq![KindV::Slot]),
        31 => Some(seq![]),
        33 => Some(seq![KindV::Text, KindV::Texts]),
        44 => Some(seq![KindV::Slot]),
        34 => Some(seq![KindV::Text]),
        64 => Some(seq![KindV::Slot, KindV::Slot]),
        39 => Some(seq![KindV::Slot]),
        35 => Some(seq![KindV::Texts]),
        40 => Some(seq![KindV::Slots]),
        32 => Some(seq![]),
        _ => None,
    }
}

/// An instruction: its opcode, then the operands the opcode calls for.
pub open spec fn read_instr(b: Seq<u8>, i: int, f: nat) -> Read<(u8, Seq<FieldV>)> {
    match read_byte(b, i) {
        Err(e) => Err(e),
        Ok((tag, j)) => match instr_kinds(tag) {
            None => Err("Unknown instruction tag "@ + decimal(tag as nat)),
            Some(ks) => match read_fields(b, j, ks, f) {
                Ok((fs, k)) => Ok(((tag, fs), k)),
                Err(e) => Err(e),
            },
        },
    }
}

/// `String::from_utf8`: the text whose UTF-8 form is `bytes` where they are
/// UTF-8, and otherwise the text of `std`'s error, named `utf8_error_text`.
#[verifier::external_body]
fn string_from_utf8(bytes: Vec<u8>) -> (r: Result<String, String>)
    ensures
        match r {
            Ok(s) => vstd::utf8::valid_utf8(bytes@) && s@ == vstd::utf8::decode_utf8(bytes@),
            Err(m) => !vstd::utf8::valid_utf8(bytes@) && m@ == utf8_error_text(bytes@),
        },
{
    match String::from_utf8(bytes) {
        Ok(s) => Ok(s),
        Err(e) => Err(e.to_string()),
    }
}

/// The failure of reading past the end.
fn eof_error() -> (r: String)
    ensures
        r@ == eof_text(),
{
    String::from_str("Unexpected EOF while decoding bytecode")
}

/// Skips `n` bytes at `*idx`, giving where they start.
fn take_bytes(bytes: &[u8], idx: &mut usize, n: usize) -> (r: Result<usize, String>)
    requires
        *old(idx) <= bytes@.len(),
    ensures
        *old(idx) <= *final(idx) <= bytes@.len(),
        match r {
            Ok(start) => start == *old(idx) && *old(idx) + n <= bytes@.len() && *final(idx) == *old(idx) + n,
            Err(m) => *old(idx) + n > bytes@.len() && m@ == eof_text(),
        },
{
    if n > bytes.len() - *idx {
        return Err(eof_error());
    }
    let start = *idx;
    *idx = *idx + n;
    Ok(start)
}

/// Reads a byte.
fn take_byte(bytes: &[u8], idx: &mut usize) -> (r: Result<u8, String>)
    requires
        *old(idx) <= bytes@.len(),
    ensures
        *old(idx) <= *final(idx) <= bytes@.len(),
        agrees(r, *final(idx) as int, read_byte(bytes@, *old(idx) as int)),
{
    match take_bytes(bytes, idx, 1) {
        Ok(start) => Ok(bytes[start]),
        Err(e) => Err(e),
    }
}

/// A suffix of a little-endian number: its first byte, then 256 times the rest.
proof fn lemma_le_value_suffix(s: Seq<u8>, k: int)
    requires
        0 <= k < s.len(),
    ensures
        le_value(s.subrange(k, s.len() as int)) == s[k] as nat + 256 * le_value(s.subrange(k + 1, s.len() as int)),
{
    assert(s.subrange(k, s.len() as int).drop_first() =~= s.subrange(k + 1, s.len() as int));
}

/// The number in the `n` (at most 8) bytes at `start`.
fn le_number(bytes: &[u8], start: usize, n: usize) -> (r: u64)
    requires
        n <= 8,
        start + n <= bytes.len(),
    ensures
        r as nat == le_value(bytes@.subrange(start as int, start + n)),
{
    let ghost s = bytes@.subrange(start as int, start + n);
    let mut v: u64 = 0;
    let mut k: usize = n;
    proof {
        assert(s.subrange(n as int, n as int) =~= Seq::<u8>::empty());
    }
    while k > 0
        invariant
            k <= n <= 8,
            start + n <= bytes.len(),
            s == bytes@.subrange(start as int, start + n),
            v as nat == le_value(s.subrange(k as int, n as int)),
            (n - k == 0 ==> v == 0),
            (n - k == 1 ==> v < 0x100),
            (n - k == 2 ==> v < 0x1_0000),
            (n - k == 3 ==> v < 0x100_0000),
            (n - k == 4 ==> v < 0x1_0000_0000),
            (n - k == 5 ==> v < 0x100_0000_0000),
            (n - k == 6 ==> v < 0x1_0000_0000_0000),
            (n - k == 7 ==> v < 0x100_0000_0000_0000),
        decreases k,
    {
        proof {
            lemma_le_value_suffix(s, k - 1);
            assert(s.subrange(k as int, n as int) =~= s.subrange(k as int, s.len() as int));
        }
        v = v * 256 + bytes[start + (k - 1)] as u64;
        k -= 1;
    }
    assert(s.subrange(0, n as int) =~= s);
    v
}

/// Reads a `u32` in four bytes.
fn take_word(bytes: &[u8], idx: &mut usize) -> (r: Result<u32, String>)
    requires
        *old(idx) <= bytes@.len(),
    ensures
        *old(idx) <= *final(idx) <= bytes@.len(),
        agrees(r, *final(idx) as int, read_word(bytes@, *old(idx) as int)),
{
    match take_bytes(bytes, idx, 4) {
        Ok(start) => Ok(le_number(bytes, start, 4) as u32),
        Err(e) => Err(e),
    }
}

/// Reads a `u64` in eight bytes.
fn take_long(bytes: &[u8], idx: &mut usize) -> (r: Result<u64, String>)
    requires
        *old(idx) <= bytes@.len(),
    ensures
        *old(idx) <= *final(idx) <= bytes@.len(),
        agrees(r, *final(idx) as int, read_long(bytes@, *old(idx) as int)),
{
    match take_bytes(bytes, idx, 8) {
        Ok(start) => Ok(le_number(bytes, start, 8)),
        Err(e) => Err(e),
    }
}

/// Reads an `i64` in eight bytes.
fn take_int(bytes: &[u8], idx: &mut usize) -> (r: Result<i64, String>)
    requires
        *old(idx) <= bytes@.len(),
    ensures
        *old(idx) <= *final(idx) <= bytes@.len(),
        agrees(r, *final(idx) as int, read_int(bytes@, *old(idx) as int)),
{
    match take_long(bytes, idx) {
        Ok(x) => Ok(x as i64),
        Err(e) => Err(e),
    }
}

/// Reads a text.
fn take_text(bytes: &[u8], idx: &mut usize) -> (r: Result<String, String>)
    requires
        *old(idx) <= bytes@.len(),
    ensures
        *old(idx) <= *final(idx) <= bytes@.len(),
        agrees(r, *final(idx) as int, read_text(bytes@, *old(idx) as int)),
{
    let n = match take_word(bytes, idx) {
        Ok(n) => n,
        Err(e) => return Err(e),
    };
    let start = match take_bytes(bytes, idx, n as usize) {
        Ok(start) => start,
        Err(e) => return Err(e),
    };
    let mut raw: Vec<u8> = Vec::new();
    let mut k: usize = 0;
    while k < n as usize
        invariant
            k <= n,
            start + n <= bytes.len(),
            raw@ == bytes@.subrange(start as int, start + k),
        decreases n - k,
    {
        raw.push(bytes[start + k]);
        proof {
            assert(raw@ =~= bytes@.subrange(start as int, start + k + 1));
        }
        k += 1;
    }
    string_from_utf8(raw)
}

/// `r` with `acc` put in front of what it read.
pub open spec fn after<A>(acc: Seq<A>, r: Read<Seq<A>>) -> Read<Seq<A>> {
    match r {
        Ok((xs, k)) => Ok((acc + xs, k)),
        Err(e) => Err(e),
    }
}

/// Reads `n` texts.
fn take_texts(bytes: &[u8], idx: &mut usize, n: u32) -> (r: Result<Vec<String>, String>)
    requires
        *old(idx) <= bytes@.len(),
    ensures
        *old(idx) <= *final(idx) <= bytes@.len(),
        match (r, read_texts(bytes@, *old(idx) as int, n as nat)) {
            (Ok(x), Ok((y, j))) => texts(x@) == y && *final(idx) == j,
            (Err(m), Err(e)) => m@ == e,
            _ => false,
        },
{
    let ghost i0 = *idx as int;
    let mut out: Vec<String> = Vec::new();
    let mut c: u32 = 0;
    while c < n
        invariant
            c <= n,
            i0 <= *idx <= bytes@.len(),
            i0 == *old(idx) as int,
            read_texts(bytes@, i0, n as nat) == after(texts(out@), read_texts(bytes@, *idx as int, (n - c) as nat)),
        decreases n - c,
    {
        let ghost before = texts(out@);
        let ghost at = *idx as int;
        let t = match take_text(bytes, idx) {
            Ok(t) => t,
            Err(e) => {
                proof {
                    assert(read_texts(bytes@, at, (n - c) as nat) == Err::<(Seq<Seq<char>>, int), Seq<char>>(e@));
                    assert(read_texts(bytes@, i0, n as nat) == Err::<(Seq<Seq<char>>, int), Seq<char>>(e@));
                }
                return Err(e);
            },
        };
        out.push(t);
        proof {
            assert(texts(out@) =~= before.push(t@));
            let rest = read_texts(bytes@, *idx as int, (n - c - 1) as nat);
            match rest {
                Ok((ts, k)) => {
                    assert(before + (seq![t@] + ts) =~= texts(out@) + ts);
                },
                Err(_) => {},
            }
        }
        c += 1;
    }
    assert(texts(out@) + Seq::<Seq<char>>::empty() =~= texts(out@));
    Ok(out)
}

/// Reads `n` slots.
fn take_slots(bytes: &[u8], idx: &mut usize, n: u32) -> (r: Result<Vec<usize>, String>)
    requires
        *old(idx) <= bytes@.len(),
    ensures
        *old(idx) <= *final(idx) <= bytes@.len(),
        agrees(r, *final(idx) as int, read_slots(bytes@, *old(idx) as int, n as nat)),
{
    let ghost i0 = *idx as int;
    let mut out: Vec<usize> = Vec::new();
    let mut c: u32 = 0;
    while c < n
        invariant
            c <= n,
            i0 <= *idx <= bytes@.len(),
            i0 == *old(idx) as int,
            read_slots(bytes@, i0, n as nat) == after(out@, read_slots(bytes@, *idx as int, (n - c) as nat)),
        decreases n - c,
    {
        let ghost before = out@;
        let ghost at = *idx as int;
        let s = match take_word(bytes, idx) {
            Ok(s) => s,
            Err(e) => {
                proof {
                    assert(read_slots(bytes@, at, (n - c) as nat) == Err::<(Seq<usize>, int), Seq<char>>(e@));
                    assert(read_slots(bytes@, i0, n as nat) == Err::<(Seq<usize>, int), Seq<char>>(e@));
                }
                return Err(e);
            },
        };
        out.push(s as usize);
        proof {
            let rest = read_slots(bytes@, *idx as int, (n - c - 1) as nat);
            match rest {
                Ok((ss, k)) => {
                    assert(before + (seq![s as usize] + ss) =~= out@ + ss);
                },
                Err(_) => {},
            }
        }
        c += 1;
    }
    assert(out@ + Seq::<usize>::empty() =~= out@);
    Ok(out)
}

/// Reads the operation byte of the instruction named `label`.
fn take_op(bytes: &[u8], idx: &mut usize, label: &str) -> (r: Result<IntLocalConstOp, String>)
    requires
        *old(idx) <= bytes@.len(),
    ensures
        *old(idx) <= *final(idx) <= bytes@.len(),
        agrees(r, *final(idx) as int, read_op(bytes@, *old(idx) as int, label@)),
{
    let x = match take_byte(bytes, idx) {
        Ok(x) => x,
        Err(e) => return Err(e),
    };
    match x {
        0 => Ok(IntLocalConstOp::Add),
        1 => Ok(IntLocalConstOp::Sub),
        2 => Ok(IntLocalConstOp::Mul),
        3 => Ok(IntLocalConstOp::Div),
        4 => Ok(IntLocalConstOp::Mod),
        _ => {
            let mut m = String::from_str("Unknown ");
            m.append(label);
            m.append(" tag ");
            m.append(u64_text(x as u64).as_str());
            Err(m)
        },
    }
}

/// Reads a value; `f` bounds how deeply values may nest, and is more than
/// the bytes left, so that it never runs out.
fn take_value(bytes: &[u8], idx: &mut usize, f: Ghost<nat>) -> (r: Result<Value, String>)
    requires
        *old(idx) <= bytes@.len(),
        f@ >= bytes@.len() - *old(idx) + 1,
    ensures
        *old(idx) <= *final(idx) <= bytes@.len(),
        agrees(r, *final(idx) as int, read_value(bytes@, *old(idx) as int, f@)),
        r is Ok ==> *final(idx) > *old(idx),
    decreases f@, 1nat,
{
    let tag = match take_byte(bytes, idx) {
        Ok(t) => t,
        Err(e) => return Err(e),
    };
    let ghost g = (f@ - 1) as nat;
    match tag {
        0 => match take_int(bytes, idx) {
            Ok(x) => Ok(Value::Int(x)),
            Err(e) => Err(e),
        },
        1 => match take_long(bytes, idx) {
            Ok(x) => Ok(Value::Float(x)),
            Err(e) => Err(e),
        },
        2 => match take_byte(bytes, idx) {
            Ok(x) => Ok(Value::Bool(x != 0)),
            Err(e) => Err(e),
        },
        3 => match take_text(bytes, idx) {
            Ok(x) => Ok(Value::String(x)),
            Err(e) => Err(e),
        },
        4 => {
            let n = match take_word(bytes, idx) {
                Ok(n) => n,
                Err(e) => return Err(e),
            };
            match take_values(bytes, idx, n, Ghost(g)) {
                Ok(items) => Ok(Value::Array(items)),
                Err(e) => Err(e),
            }
        },
        5 => match take_text(bytes, idx) {
            Ok(x) => Ok(Value::Function(x)),
            Err(e) => Err(e),
        },
        6 => Ok(Value::Unit),
        7 => {
            let name = match take_text(bytes, idx) {
                Ok(x) => x,
                Err(e) => return Err(e),
            };
            let m = match take_word(bytes, idx) {
                Ok(x) => x,
                Err(e) => return Err(e),
            };
            let field_names = match take_texts(bytes, idx, m) {
                Ok(x) => x,
                Err(e) => return Err(e),
            };
            let n = match take_word(bytes, idx) {
                Ok(x) => x,
                Err(e) => return Err(e),
            };
            match take_values(bytes, idx, n, Ghost(g)) {
                Ok(fields) => Ok(Value::Struct { shape: StructShape { name, field_names }, fields }),
                Err(e) => Err(e),
            }
        },
        8 => match take_word(bytes, idx) {
            Ok(x) => Ok(Value::FunctionIdx(x as usize)),
            Err(e) => Err(e),
        },
        _ => {
            let mut m = String::from_str("Unknown value tag ");
            m.append(u64_text(tag as u64).as_str());
            Err(m)
        },
    }
}

/// Reads `n` values; `f` is as for `take_value`.
fn take_values(bytes: &[u8], idx: &mut usize, n: u32, f: Ghost<nat>) -> (r: Result<Vec<Value>, String>)
    requires
        *old(idx) <= bytes@.len(),
        f@ >= bytes@.len() - *old(idx) + 1,
    ensures
        *old(idx) <= *final(idx) <= bytes@.len(),
        *final(idx) >= *old(idx),
        match (r, read_values(bytes@, *old(idx) as int, n as nat, f@)) {
            (Ok(x), Ok((y, j))) => values_view(x@) == y && *final(idx) == j,
            (Err(m), Err(e)) => m@ == e,
            _ => false,
        },
    decreases f@, 2nat,
{
    let ghost i0 = *idx as int;
    let mut out: Vec<Value> = Vec::new();
    let mut c: u32 = 0;
    while c < n
        invariant
            c <= n,
            i0 == *old(idx) as int,
            i0 <= *idx <= bytes@.len(),
            f@ >= bytes@.len() - i0 + 1,
            read_values(bytes@, i0, n as nat, f@) == after(values_view(out@), read_values(bytes@, *idx as int, (n - c) as nat, f@)),
        decreases n - c,
    {
        let ghost before = out@;
        let ghost at = *idx as int;
        let v = match take_value(bytes, idx, f) {
            Ok(v) => v,
            Err(e) => {
                proof {
                    assert(read_values(bytes@, at, (n - c) as nat, f@) == Err::<(Seq<ValueV>, int), Seq<char>>(e@));
                }
                return Err(e);
            },
        };
        let ghost vv = value_view(v);
        out.push(v);
        proof {
            assert(out@.drop_last() =~= before);
            assert(values_view(out@) == values_view(before).push(vv));
            let rest = read_values(bytes@, *idx as int, (n - c - 1) as nat, f@);
            match rest {
                Ok((vs, k)) => {
                    assert(values_view(before) + (seq![vv] + vs) =~= values_view(out@) + vs);
                },
                Err(_) => {},
            }
        }
        c += 1;
    }
    assert(values_view(out@) + Seq::<ValueV>::empty() =~= values_view(out@));
    Ok(out)
}

/// The kind of an operand; an operation names its instruction.
#[derive(Clone, Copy)]
pub enum Kind {
    Slot,
    Int,
    Half,
    Op(&'static str),
    Text,
    Texts,
    Slots,
    Val,
}

impl View for Kind {
    type V = KindV;

    open spec fn view(&self) -> KindV {
        match *self {
            Kind::Slot => KindV::Slot,
            Kind::Int => KindV::Int,
            Kind::Half => KindV::Half,
            Kind::Op(label) => KindV::Op(label@),
            Kind::Text => KindV::Text,
            Kind::Texts => KindV::Texts,
            Kind::Slots => KindV::Slots,
            Kind::Val => KindV::Val,
        }
    }
}

/// An operand read from bytes.
pub enum Field {
    Slot(usize),
    Int(i64),
    Half(u16),
    Op(IntLocalConstOp),
    Text(String),
    Texts(Vec<String>),
    Slots(Vec<usize>),
    Val(Value),
}

impl View for Field {
    type V = FieldV;

    open spec fn view(&self) -> FieldV {
        match *self {
            Field::Slot(s) => FieldV::Slot(s),
            Field::Int(v) => FieldV::Int(v),
            Field::Half(h) => FieldV::Half(h),
            Field::Op(op) => FieldV::Op(op),
            Field::Text(s) => FieldV::Text(s@),
            Field::Texts(ts) => FieldV::Texts(texts(ts@)),
            Field::Slots(ss) => FieldV::Slots(ss@),
            Field::Val(v) => FieldV::Val(value_view(v)),
        }
    }
}

/// The views of operands.
pub open spec fn fields_view(s: Seq<Field>) -> Seq<FieldV> {
    s.map_values(|x: Field| x@)
}

/// An operand is of kind `k`.
pub open spec fn fits(x: FieldV, k: KindV) -> bool {
    match (x, k) {
        (FieldV::Slot(_), KindV::Slot) => true,
        (FieldV::Int(_), KindV::Int) => true,
        (FieldV::Half(_), KindV::Half) => true,
        (FieldV::Op(_), KindV::Op(_)) => true,
        (FieldV::Text(_), KindV::Text) => true,
        (FieldV::Texts(_), KindV::Texts) => true,
        (FieldV::Slots(_), KindV::Slots) => true,
        (FieldV::Val(_), KindV::Val) => true,
        _ => false,
    }
}

/// What `read_fields` reads has the kinds it was asked for.
proof fn lemma_read_fields_fit(b: Seq<u8>, i: int, ks: Seq<KindV>, f: nat)
    ensures
        read_fields(b, i, ks, f) matches Ok((xs, _)) ==> xs.len() == ks.len()
            && forall|j: int| 0 <= j < ks.len() ==> fits(#[trigger] xs[j], ks[j]),
    decreases ks.len(),
{
    if ks.len() > 0 {
        match read_field(b, i, ks[0], f) {
            Ok((x, j)) => {
                lemma_read_fields_fit(b, j, ks.drop_first(), f);
                if let Ok((xs, _)) = read_fields(b, i, ks, f) {
                    assert forall|t: int| 0 <= t < ks.len() implies fits(#[trigger] xs[t], ks[t]) by {
                        if t > 0 {
                            assert(ks[t] == ks.drop_first()[t - 1]);
                        }
                    }
                }
            },
            Err(_) => {},
        }
    }
}

/// Reads an operand of kind `k`; `f` is as for `take_value`.
fn take_field(bytes: &[u8], idx: &mut usize, k: Kind, f: Ghost<nat>) -> (r: Result<Field, String>)
    requires
        *old(idx) <= bytes@.len(),
        f@ >= bytes@.len() - *old(idx) + 1,
    ensures
        *old(idx) <= *final(idx) <= bytes@.len(),
        agrees(r, *final(idx) as int, read_field(bytes@, *old(idx) as int, k@, f@)),
{
    match k {
        Kind::Slot => match take_word(bytes, idx) {
            Ok(x) => Ok(Field::Slot(x as usize)),
            Err(e) => Err(e),
        },
        Kind::Int => match take_int(bytes, idx) {
            Ok(x) => Ok(Field::Int(x)),
            Err(e) => Err(e),
        },
        Kind::Half => match take_word(bytes, idx) {
            Ok(x) => Ok(Field::Half(x as u16)),
            Err(e) => Err(e),
        },
        Kind::Op(label) => match take_op(bytes, idx, label) {
            Ok(x) => Ok(Field::Op(x)),
            Err(e) => Err(e),
        },
        Kind::Text => match take_text(bytes, idx) {
            Ok(x) => Ok(Field::Text(x)),
            Err(e) => Err(e),
        },
        Kind::Texts => {
            let n = match take_word(bytes, idx) {
                Ok(n) => n,
                Err(e) => return Err(e),
            };
            match take_texts(bytes, idx, n) {
                Ok(x) => Ok(Field::Texts(x)),
                Err(e) => Err(e),
            }
        },
        Kind::Slots => {
            let n = match take_word(bytes, idx) {
                Ok(n) => n,
                Err(e) => return Err(e),
            };
            match take_slots(bytes, idx, n) {
                Ok(x) => Ok(Field::Slots(x)),
                Err(e) => Err(e),
            }
        },
        Kind::Val => match take_value(bytes, idx, f) {
            Ok(x) => Ok(Field::Val(x)),
            Err(e) => Err(e),
        },
    }
}

/// Reads operands of the kinds `ks`, in order.
fn take_fields(bytes: &[u8], idx: &mut usize, ks: &Vec<Kind>, f: Ghost<nat>) -> (r: Result<Vec<Field>, String>)
    requires
        *old(idx) <= bytes@.len(),
        f@ >= bytes@.len() - *old(idx) + 1,
    ensures
        *old(idx) <= *final(idx) <= bytes@.len(),
        match (r, read_fields(bytes@, *old(idx) as int, ks@.map_values(|k: Kind| k@), f@)) {
            (Ok(x), Ok((y, j))) => fields_view(x@) == y && *final(idx) == j,
            (Err(m), Err(e)) => m@ == e,
            _ => false,
        },
{
    let ghost kv = ks@.map_values(|k: Kind| k@);
    let ghost i0 = *idx as int;
    let mut out: Vec<Field> = Vec::new();
    let mut c: usize = 0;
    assert(kv.skip(0) =~= kv);
    while c < ks.len()
        invariant
            c <= ks@.len(),
            kv == ks@.map_values(|k: Kind| k@),
            i0 == *old(idx) as int,
            i0 <= *idx <= bytes@.len(),
            f@ >= bytes@.len() - i0 + 1,
            read_fields(bytes@, i0, kv, f@) == after(fields_view(out@), read_fields(bytes@, *idx as int, kv.skip(c as int), f@)),
        decreases ks@.len() - c,
    {
        let ghost before = out@;
        let ghost at = *idx as int;
        proof {
            assert(kv.skip(c as int)[0] == ks@[c as int]@);
            assert(kv.skip(c as int).drop_first() =~= kv.skip(c + 1));
        }
        let x = match take_field(bytes, idx, ks[c], f) {
            Ok(x) => x,
            Err(e) => {
                proof {
                    assert(read_fields(bytes@, at, kv.skip(c as int), f@) == Err::<(Seq<FieldV>, int), Seq<char>>(e@));
                }
                return Err(e);
            },
        };
        let ghost xv = x@;
        out.push(x);
        proof {
            assert(fields_view(out@) =~= fields_view(before).push(xv));
            let rest = read_fields(bytes@, *idx as int, kv.skip(c + 1), f@);
            match rest {
                Ok((xs, k)) => {
                    assert(fields_view(before) + (seq![xv] + xs) =~= fields_view(out@) + xs);
                },
                Err(_) => {},
            }
        }
        c += 1;
    }
    assert(kv.skip(c as int) =~= Seq::<KindV>::empty());
    assert(fields_view(out@) + Seq::<FieldV>::empty() =~= fields_view(out@));
    Ok(out)
}

/// The kinds of the operands of the instruction with opcode `tag`.
#[verifier::rlimit(40)]
fn kinds_of(tag: u8) -> (r: Option<Vec<Kind>>)
    ensures
        match (r, instr_kinds(tag)) {
            (Some(v), Some(ks)) => v@.map_values(|k: Kind| k@) == ks,
            (None, None) => true,
            _ => false,
        },
{
    match tag {
        0 => Some(vec![Kind::Val]),
        1 => Some(vec![Kind::Slot]),
        2 => Some(vec![Kind::Slot]),
        48 => Some(vec![Kind::Slot, Kind::Slot]),
        49 => Some(vec![Kind::Slot, Kind::Int]),
        62 => Some(vec![Kind::Slot, Kind::Slot, Kind::Op("IntLocalLocalOp")]),
        61 => Some(vec![Kind::Slot, Kind::Op("IntLocalConstOp"), Kind::Int]),
        63 => Some(vec![Kind::Slot, Kind::Op("IntStackOpToLocal")]),
        3 => Some(vec![Kind::Slot]),
        4 => Some(vec![Kind::Slot]),
        5 => Some(Vec::new()),
        6 => Some(Vec::new()),
        7 => Some(Vec::new()),
        8 => Some(Vec::new()),
        9 => Some(Vec::new()),
        10 => Some(Vec::new()),
        11 => Some(Vec::new()),
        12 => Some(Vec::new()),
        13 => Some(Vec::new()),
        14 => Some(Vec::new()),
        15 => Some(Vec::new()),
        16 => Some(Vec::new()),
        17 => Some(Vec::new()),
        18 => Some(Vec::new()),
        19 => Some(Vec::new()),
        20 => Some(Vec::new()),
        21 => Some(vec![Kind::Slot]),
        22 => Some(vec![Kind::Slot]),
        23 => Some(vec![Kind::Slot]),
        46 => Some(vec![Kind::Slot, Kind::Int, Kind::Slot]),
        24 => Some(vec![Kind::Text, Kind::Slot]),
        38 => Some(vec![Kind::Slot, Kind::Slot]),
        47 => Some(vec![Kind::Int]),
        51 => Some(vec![Kind::Slot]),
        37 => Some(vec![Kind::Slot]),
        36 => Some(vec![Kind::Text, Kind::Slot]),
        43 => Some(vec![Kind::Slot, Kind::Slot]),
        25 => Some(vec![Kind::Text, Kind::Text, Kind::Slot]),
        41 => Some(vec![Kind::Half, Kind::Slot]),
        52 => Some(Vec::new()),
        56 => Some(vec![Kind::Slot]),
        53 => Some(vec![Kind::Text]),
        57 => Some(vec![Kind::Slot, Kind::Text]),
        54 => Some(vec![Kind::Int, Kind::Int]),
        58 => Some(vec![Kind::Slot, Kind::Int, Kind::Int]),
        55 => Some(vec![Kind::Text]),
        59 => Some(vec![Kind::Slot, Kind::Text]),
        26 => Some(vec![Kind::Slot]),
        27 => Some(vec![Kind::Slot]),
        28 => Some(Vec::new()),
        60 => Some(vec![Kind::Slot]),
        29 => Some(Vec::new()),
        45 => Some(vec![Kind::Slot]),
        50 => Some(vec![Kind::Slot]),
        30 => Some(vec![Kind::Slot]),
        31 => Some(Vec::new()),
        33 => Some(vec![Kind::Text, Kind::Texts]),
        44 => Some(vec![Kind::Slot]),
        34 => Some(vec![Kind::Text]),
        64 => Some(vec![Kind::Slot, Kind::Slot]),
        39 => Some(vec![Kind::Slot]),
        35 => Some(vec![Kind::Texts]),
        40 => Some(vec![Kind::Slots]),
        32 => Some(Vec::new()),
        _ => None,
    }
}

/// Takes the first operand, of kind `Slot`.
fn pop_slot(fs: &mut Vec<Field>) -> (r: usize)
    requires
        old(fs)@.len() > 0,
        old(fs)@[0]@ is Slot,
    ensures
        old(fs)@[0] == Field::Slot(r),
        final(fs)@ == old(fs)@.drop_first(),
{
    match fs.remove(0) {
        Field::Slot(x) => x,
        _ => 0,
    }
}

/// Takes the first operand, of kind `Int`.
fn pop_int(fs: &mut Vec<Field>) -> (r: i64)
    requires
        old(fs)@.len() > 0,
        old(fs)@[0]@ is Int,
    ensures
        old(fs)@[0] == Field::Int(r),
        final(fs)@ == old(fs)@.drop_first(),
{
    match fs.remove(0) {
        Field::Int(x) => x,
        _ => 0,
    }
}

/// Takes the first operand, of kind `Half`.
fn pop_half(fs: &mut Vec<Field>) -> (r: u16)
    requires
        old(fs)@.len() > 0,
        old(fs)@[0]@ is Half,
    ensures
        old(fs)@[0] == Field::Half(r),
        final(fs)@ == old(fs)@.drop_first(),
{
    match fs.remove(0) {
        Field::Half(x) => x,
        _ => 0,
    }
}

/// Takes the first operand, of kind `Op`.
fn pop_op(fs: &mut Vec<Field>) -> (r: IntLocalConstOp)
    requires
        old(fs)@.len() > 0,
        old(fs)@[0]@ is Op,
    ensures
        old(fs)@[0] == Field::Op(r),
        final(fs)@ == old(fs)@.drop_first(),
{
    match fs.remove(0) {
        Field::Op(x) => x,
        _ => IntLocalConstOp::Add,
    }
}

/// Takes the first operand, of kind `Text`.
fn pop_text(fs: &mut Vec<Field>) -> (r: String)
    requires
        old(fs)@.len() > 0,
        old(fs)@[0]@ is Text,
    ensures
        old(fs)@[0] == Field::Text(r),
        final(fs)@ == old(fs)@.drop_first(),
{
    match fs.remove(0) {
        Field::Text(x) => x,
        _ => String::new(),
    }
}

/// Takes the first operand, of kind `Texts`.
fn pop_texts(fs: &mut Vec<Field>) -> (r: Vec<String>)
    requires
        old(fs)@.len() > 0,
        old(fs)@[0]@ is Texts,
    ensures
        old(fs)@[0] == Field::Texts(r),
        final(fs)@ == old(fs)@.drop_first(),
{
    match fs.remove(0) {
        Field::Texts(x) => x,
        _ => Vec::new(),
    }
}

/// Takes the first operand, of kind `Slots`.
fn pop_slots(fs: &mut Vec<Field>) -> (r: Vec<usize>)
    requires
        old(fs)@.len() > 0,
        old(fs)@[0]@ is Slots,
    ensures
        old(fs)@[0] == Field::Slots(r),
        final(fs)@ == old(fs)@.drop_first(),
{
    match fs.remove(0) {
        Field::Slots(x) => x,
        _ => Vec::new(),
    }
}

/// Takes the first operand, of kind `Val`.
fn pop_val(fs: &mut Vec<Field>) -> (r: Value)
    requires
        old(fs)@.len() > 0,
        old(fs)@[0]@ is Val,
    ensures
        old(fs)@[0] == Field::Val(r),
        final(fs)@ == old(fs)@.drop_first(),
{
    match fs.remove(0) {
        Field::Val(x) => x,
        _ => Value::Unit,
    }
}

/// The instruction with opcode `tag` and the operands `fields`, which are of
/// the kinds the opcode calls for.
#[verifier::rlimit(60)]
fn build_instr(tag: u8, fields: Vec<Field>) -> (r: Instr)
    requires
        instr_kinds(tag) is Some,
        fields@.len() == instr_kinds(tag).unwrap().len(),
        forall|j: int| 0 <= j < fields@.len() ==> fits(#[trigger] fields@[j]@, instr_kinds(tag).unwrap()[j]),
    ensures
        instr_parts(r).0 == tag,
        instr_parts(r).1 == fields_view(fields@),
{
    let mut fields = fields;
    match tag {
        0 => Instr::LoadConst(pop_val(&mut fields)),
        1 => Instr::LoadLocal(pop_slot(&mut fields)),
        2 => Instr::StoreLocal(pop_slot(&mut fields)),
        48 => {
            let dst = pop_slot(&mut fields); let src = pop_slot(&mut fields);
            Instr::AddLocalToLocal { dst, src }
        },
        49 => {
            let slot = pop_slot(&mut fields); let rhs = pop_int(&mut fields);
            Instr::AddConstToLocal { slot, rhs }
        },
        62 => {
            let lhs = pop_slot(&mut fields); let rhs = pop_slot(&mut fields); let op = pop_op(&mut fields);
            Instr::IntLocalLocalOp { lhs, rhs, op }
        },
        61 => {
            let slot = pop_slot(&mut fields); let op = pop_op(&mut fields); let rhs = pop_int(&mut fields);
            Instr::IntLocalConstOp { slot, op, rhs }
        },
        63 => {
            let slot = pop_slot(&mut fields); let op = pop_op(&mut fields);
            Instr::IntStackOpToLocal { slot, op }
        },
        3 => Instr::LoadGlobal(pop_slot(&mut fields)),
        4 => Instr::StoreGlobal(pop_slot(&mut fields)),
        5 => Instr::Pop,
        6 => Instr::NegInt,
        7 => Instr::NotBool,
        8 => Instr::Add,
        9 => Instr::SubInt,
        10 => Instr::MulInt,
        11 => Instr::DivInt,
        12 => Instr::ModInt,
        13 => Instr::Eq,
        14 => Instr::Neq,
        15 => Instr::LtInt,
        16 => Instr::LteInt,
        17 => Instr::GtInt,
        18 => Instr::GteInt,
        19 => Instr::AndBool,
        20 => Instr::OrBool,
        21 => Instr::Jump(pop_slot(&mut fields)),
        22 => Instr::JumpIfFalse(pop_slot(&mut fields)),
        23 => Instr::JumpIfTrue(pop_slot(&mut fields)),
        46 => {
            let slot = pop_slot(&mut fields); let rhs = pop_int(&mut fields); let target = pop_slot(&mut fields);
            Instr::JumpIfLocalLtConst { slot, rhs, target }
        },
        24 => {
            let name = pop_text(&mut fields); let argc = pop_slot(&mut fields);
            Instr::Call { name, argc }
        },
        38 => {
            let idx = pop_slot(&mut fields); let argc = pop_slot(&mut fields);
            Instr::CallIdx { idx, argc }
        },
        47 => Instr::CallIdxAddConst(pop_int(&mut fields)),
        51 => Instr::CallIdxStructFieldAdd(pop_slot(&mut fields)),
        37 => {
            let argc = pop_slot(&mut fields);
            Instr::CallValue { argc }
        },
        36 => {
            let name = pop_text(&mut fields); let argc = pop_slot(&mut fields);
            Instr::CallMethod { name, argc }
        },
        43 => {
            let id = pop_slot(&mut fields); let argc = pop_slot(&mut fields);
            Instr::CallMethodId { id, argc }
        },
        25 => {
            let package = pop_text(&mut fields); let name = pop_text(&mut fields); let argc = pop_slot(&mut fields);
            Instr::CallBuiltin { package, name, argc }
        },
        41 => {
            let id = pop_half(&mut fields); let argc = pop_slot(&mut fields);
            Instr::CallBuiltinId { id, argc }
        },
        52 => Instr::StrLen,
        56 => Instr::StrLenLocal(pop_slot(&mut fields)),
        53 => Instr::StrIndexOfConst(pop_text(&mut fields)),
        57 => {
            let slot = pop_slot(&mut fields); let needle = pop_text(&mut fields);
            Instr::StrIndexOfLocalConst { slot, needle }
        },
        54 => {
            let start = pop_int(&mut fields); let end = pop_int(&mut fields);
            Instr::StrSliceConst { start, end }
        },
        58 => {
            let slot = pop_slot(&mut fields); let start = pop_int(&mut fields); let end = pop_int(&mut fields);
            Instr::StrSliceLocalConst { slot, start, end }
        },
        55 => Instr::StrContainsConst(pop_text(&mut fields)),
        59 => {
            let slot = pop_slot(&mut fields); let needle = pop_text(&mut fields);
            Instr::StrContainsLocalConst { slot, needle }
        },
        26 => Instr::MakeArray(pop_slot(&mut fields)),
        27 => Instr::MakeArrayRepeat(pop_slot(&mut fields)),
        28 => Instr::ArrayGet,
        60 => Instr::ArrayGetLocal(pop_slot(&mut fields)),
        29 => Instr::ArraySet,
        45 => Instr::ArraySetLocal(pop_slot(&mut fields)),
        50 => Instr::ArrayIncLocal(pop_slot(&mut fields)),
        30 => Instr::ArraySetChain(pop_slot(&mut fields)),
        31 => Instr::ArrayLen,
        33 => {
            let name = pop_text(&mut fields); let fields = pop_texts(&mut fields);
            Instr::MakeStruct { name, fields }
        },
        44 => {
            let id = pop_slot(&mut fields);
            Instr::MakeStructId { id }
        },
        34 => Instr::StructGet(pop_text(&mut fields)),
        64 => {
            let slot = pop_slot(&mut fields); let field_slot = pop_slot(&mut fields);
            Instr::StructGetLocalSlot { slot, field_slot }
        },
        39 => Instr::StructGetSlot(pop_slot(&mut fields)),
        35 => Instr::StructSetPath(pop_texts(&mut fields)),
        40 => Instr::StructSetPathSlots(pop_slots(&mut fields)),
        32 => Instr::Return,
        _ => Instr::Return,
    }
}

/// Reads an instruction; `f` is as for `take_value`.
fn take_instr(bytes: &[u8], idx: &mut usize, f: Ghost<nat>) -> (r: Result<Instr, String>)
    requires
        *old(idx) <= bytes@.len(),
        f@ >= bytes@.len() - *old(idx) + 1,
    ensures
        *old(idx) <= *final(idx) <= bytes@.len(),
        match (r, read_instr(bytes@, *old(idx) as int, f@)) {
            (Ok(x), Ok((p, j))) => instr_parts(x) == p && *final(idx) == j,
            (Err(m), Err(e)) => m@ == e,
            _ => false,
        },
{
    let tag = match take_byte(bytes, idx) {
        Ok(t) => t,
        Err(e) => return Err(e),
    };
    let ks = match kinds_of(tag) {
        Some(ks) => ks,
        None => {
            let mut m = String::from_str("Unknown instruction tag ");
            m.append(u64_text(tag as u64).as_str());
            return Err(m);
        },
    };
    let ghost at = *idx as int;
    let fields = match take_fields(bytes, idx, &ks, f) {
        Ok(x) => x,
        Err(e) => return Err(e),
    };
    proof {
        lemma_read_fields_fit(bytes@, at, ks@.map_values(|k: Kind| k@), f@);
        assert(fields@.len() == fields_view(fields@).len());
        assert forall|j: int| 0 <= j < fields@.len() implies fits(#[trigger] fields@[j]@, instr_kinds(tag).unwrap()[j]) by {
            assert(fields_view(fields@)[j] == fields@[j]@);
        }
    }
    Ok(build_instr(tag, fields))
}

/// A struct shape: its name, then its field names, counted.
pub open spec fn read_shape(b: Seq<u8>, i: int) -> Read<ShapeV> {
    match read_text(b, i) {
        Err(e) => Err(e),
        Ok((name, j)) => match read_word(b, j) {
            Err(e) => Err(e),
            Ok((m, k)) => match read_texts(b, k, m as nat) {
                Ok((names, l)) => Ok((ShapeV { name, field_names: names }, l)),
                Err(e) => Err(e),
            },
        },
    }
}

/// `n` struct shapes.
pub open spec fn read_shapes(b: Seq<u8>, i: int, n: nat) -> Read<Seq<ShapeV>>
    decreases n,
{
    if n == 0 {
        Ok((seq![], i))
    } else {
        match read_shape(b, i) {
            Err(e) => Err(e),
            Ok((x, j)) => match read_shapes(b, j, (n - 1) as nat) {
                Err(e) => Err(e),
                Ok((xs, k)) => Ok((seq![x] + xs, k)),
            },
        }
    }
}

/// `n` instructions.
pub open spec fn read_instrs(b: Seq<u8>, i: int, n: nat, f: nat) -> Read<Seq<(u8, Seq<FieldV>)>>
    decreases n,
{
    if n == 0 {
        Ok((seq![], i))
    } else {
        match read_instr(b, i, f) {
            Err(e) => Err(e),
            Ok((x, j)) => match read_instrs(b, j, (n - 1) as nat, f) {
                Err(e) => Err(e),
                Ok((xs, k)) => Ok((seq![x] + xs, k)),
            },
        }
    }
}

/// A function: its name, its numbers of locals and parameters, and its code, counted.
pub open spec fn read_chunk(b: Seq<u8>, i: int, f: nat) -> Read<ChunkV> {
    match read_text(b, i) {
        Err(e) => Err(e),
        Ok((name, j)) => match read_word(b, j) {
            Err(e) => Err(e),
            Ok((locals, k)) => match read_word(b, k) {
                Err(e) => Err(e),
                Ok((params, l)) => match read_word(b, l) {
                    Err(e) => Err(e),
                    Ok((n, p)) => match read_instrs(b, p, n as nat, f) {
                        Ok((code, q)) => Ok((ChunkV { name, code, locals_count: locals as usize, param_count: params as usize }, q)),
                        Err(e) => Err(e),
                    },
                },
            },
        },
    }
}

/// `n` functions.
pub open spec fn read_chunks(b: Seq<u8>, i: int, n: nat, f: nat) -> Read<Seq<ChunkV>>
    decreases n,
{
    if n == 0 {
        Ok((seq![], i))
    } else {
        match read_chunk(b, i, f) {
            Err(e) => Err(e),
            Ok((x, j)) => match read_chunks(b, j, (n - 1) as nat, f) {
                Err(e) => Err(e),
                Ok((xs, k)) => Ok((seq![x] + xs, k)),
            },
        }
    }
}

/// The magic header `SKBC`.
pub open spec fn magic() -> Seq<u8> {
    seq![83u8, 75u8, 66u8, 67u8]
}

/// No two functions have the same name.
pub open spec fn distinct_names(fs: Seq<ChunkV>) -> bool {
    forall|a: int, b: int| 0 <= a < fs.len() && 0 <= b < fs.len() && a != b ==> (#[trigger] fs[a]).name != (#[trigger] fs[b]).name
}

/// `fs` with `c` put under its name: in the place of the function of that
/// name, or after the others.
pub open spec fn put_function(fs: Seq<ChunkV>, c: ChunkV) -> Seq<ChunkV> {
    if exists|k: int| 0 <= k < fs.len() && (#[trigger] fs[k]).name == c.name {
        fs.update(choose|k: int| 0 <= k < fs.len() && (#[trigger] fs[k]).name == c.name, c)
    } else {
        fs.push(c)
    }
}

/// The functions `cs`, each put under its name in turn.
pub open spec fn by_name(cs: Seq<ChunkV>) -> Seq<ChunkV>
    decreases cs.len(),
{
    if cs.len() == 0 {
        seq![]
    } else {
        put_function(by_name(cs.drop_last()), cs.last())
    }
}

proof fn lemma_put_function_distinct(fs: Seq<ChunkV>, c: ChunkV)
    requires
        distinct_names(fs),
    ensures
        distinct_names(put_function(fs, c)),
{
    let w = put_function(fs, c);
    if exists|k: int| 0 <= k < fs.len() && (#[trigger] fs[k]).name == c.name {
        let k0 = choose|k: int| 0 <= k < fs.len() && (#[trigger] fs[k]).name == c.name;
        assert forall|a: int, b: int| 0 <= a < w.len() && 0 <= b < w.len() && a != b implies (#[trigger] w[a]).name != (#[trigger] w[b]).name by {
            if a != k0 && b != k0 {
                assert(fs[a].name != fs[b].name);
            } else if a == k0 {
                assert(fs[k0].name != fs[b].name);
            } else {
                assert(fs[a].name != fs[k0].name);
            }
        }
    } else {
        assert forall|a: int, b: int| 0 <= a < w.len() && 0 <= b < w.len() && a != b implies (#[trigger] w[a]).name != (#[trigger] w[b]).name by {
            if a < fs.len() && b < fs.len() {
                assert(fs[a].name != fs[b].name);
            }
        }
    }
}

/// Functions put under their names have distinct names.
pub proof fn lemma_by_name_distinct(cs: Seq<ChunkV>)
    ensures
        distinct_names(by_name(cs)),
    decreases cs.len(),
{
    if cs.len() > 0 {
        lemma_by_name_distinct(cs.drop_last());
        lemma_put_function_distinct(by_name(cs.drop_last()), cs.last());
    }
}

/// The module in the bytes `b`: the magic header, version 4, the number of
/// functions, the method names, the struct shapes, and the functions, each
/// put under its name; what follows them is not looked at.
pub open spec fn read_module(b: Seq<u8>) -> Result<ModuleV, Seq<char>> {
    let f = (b.len() + 1) as nat;
    if 4 > b.len() {
        Err(eof_text())
    } else if b.subrange(0, 4) != magic() {
        Err("Invalid bytecode magic header"@)
    } else {
        match read_word(b, 4) {
            Err(e) => Err(e),
            Ok((version, i1)) => if version != 4 {
                Err("Unsupported bytecode version "@ + decimal(version as nat))
            } else {
                match read_word(b, i1) {
                    Err(e) => Err(e),
                    Ok((nf, i2)) => match read_word(b, i2) {
                        Err(e) => Err(e),
                        Ok((nm, i3)) => match read_texts(b, i3, nm as nat) {
                            Err(e) => Err(e),
                            Ok((names, i4)) => match read_word(b, i4) {
                                Err(e) => Err(e),
                                Ok((ns, i5)) => match read_shapes(b, i5, ns as nat) {
                                    Err(e) => Err(e),
                                    Ok((shapes, i6)) => match read_chunks(b, i6, nf as nat, f) {
                                        Err(e) => Err(e),
                                        Ok((cs, _)) => Ok(ModuleV { functions: by_name(cs), method_names: names, struct_shapes: shapes }),
                                    },
                                },
                            },
                        },
                    },
                }
            },
        }
    }
}

/// Reads a struct shape.
fn take_shape(bytes: &[u8], idx: &mut usize) -> (r: Result<StructShape, String>)
    requires
        *old(idx) <= bytes@.len(),
    ensures
        *old(idx) <= *final(idx) <= bytes@.len(),
        match (r, read_shape(bytes@, *old(idx) as int)) {
            (Ok(x), Ok((y, j))) => shape_view(x) == y && *final(idx) == j,
            (Err(m), Err(e)) => m@ == e,
            _ => false,
        },
{
    let name = match take_text(bytes, idx) {
        Ok(x) => x,
        Err(e) => return Err(e),
    };
    let m = match take_word(bytes, idx) {
        Ok(x) => x,
        Err(e) => return Err(e),
    };
    match take_texts(bytes, idx, m) {
        Ok(field_names) => Ok(StructShape { name, field_names }),
        Err(e) => Err(e),
    }
}

/// Reads a function.
#[verifier::loop_isolation(false)]
fn take_chunk(bytes: &[u8], idx: &mut usize, f: Ghost<nat>) -> (r: Result<FunctionChunk, String>)
    requires
        *old(idx) <= bytes@.len(),
        f@ >= bytes@.len() - *old(idx) + 1,
    ensures
        *old(idx) <= *final(idx) <= bytes@.len(),
        match (r, read_chunk(bytes@, *old(idx) as int, f@)) {
            (Ok(x), Ok((y, j))) => chunk_view(x) == y && *final(idx) == j,
            (Err(m), Err(e)) => m@ == e,
            _ => false,
        },
{
    let name = match take_text(bytes, idx) {
        Ok(x) => x,
        Err(e) => return Err(e),
    };
    let locals = match take_word(bytes, idx) {
        Ok(x) => x,
        Err(e) => return Err(e),
    };
    let params = match take_word(bytes, idx) {
        Ok(x) => x,
        Err(e) => return Err(e),
    };
    let n = match take_word(bytes, idx) {
        Ok(x) => x,
        Err(e) => return Err(e),
    };
    let ghost i0 = *idx as int;
    let mut code: Vec<Instr> = Vec::new();
    let mut c: u32 = 0;
    while c < n
        invariant
            c <= n,
            i0 <= *idx <= bytes@.len(),
            f@ >= bytes@.len() - i0 + 1,
            read_instrs(bytes@, i0, n as nat, f@) == after(code_view(code@), read_instrs(bytes@, *idx as int, (n - c) as nat, f@)),
        decreases n - c,
    {
        let ghost before = code@;
        let ghost at = *idx as int;
        let x = match take_instr(bytes, idx, f) {
            Ok(x) => x,
            Err(e) => {
                proof {
                    assert(read_instrs(bytes@, at, (n - c) as nat, f@) == Err::<(Seq<(u8, Seq<FieldV>)>, int), Seq<char>>(e@));
                }
                return Err(e);
            },
        };
        let ghost xv = instr_parts(x);
        code.push(x);
        proof {
            assert(code_view(code@) =~= code_view(before).push(xv));
            let rest = read_instrs(bytes@, *idx as int, (n - c - 1) as nat, f@);
            match rest {
                Ok((xs, k)) => {
                    assert(code_view(before) + (seq![xv] + xs) =~= code_view(code@) + xs);
                },
                Err(_) => {},
            }
        }
        c += 1;
    }
    assert(code_view(code@) + Seq::<(u8, Seq<FieldV>)>::empty() =~= code_view(code@));
    Ok(FunctionChunk { name, code, locals_count: locals as usize, param_count: params as usize })
}

/// Puts `c` under its name in `fs`, in the place of the function of that
/// name or after the others.
#[verifier::loop_isolation(false)]
fn put_chunk(fs: &mut Vec<FunctionChunk>, c: FunctionChunk)
    requires
        distinct_names(old(fs)@.map_values(|x: FunctionChunk| chunk_view(x))),
    ensures
        final(fs)@.map_values(|x: FunctionChunk| chunk_view(x)) == put_function(old(fs)@.map_values(|x: FunctionChunk| chunk_view(x)), chunk_view(c)),
        distinct_names(final(fs)@.map_values(|x: FunctionChunk| chunk_view(x))),
{
    let ghost v0 = fs@.map_values(|x: FunctionChunk| chunk_view(x));
    let ghost cv = chunk_view(c);
    let mut k: usize = 0;
    while k < fs.len()
        invariant
            k <= fs@.len(),
            v0 == fs@.map_values(|x: FunctionChunk| chunk_view(x)),
            forall|j: int| 0 <= j < k ==> (#[trigger] v0[j]).name != cv.name,
        decreases fs@.len() - k,
    {
        assert(v0[k as int] == chunk_view(fs@[k as int]));
        if text_eq(fs[k].name.as_str(), c.name.as_str()) {
            let ghost k0 = k as int;
            assert(v0[k0].name == cv.name);
            fs.set(k, c);
            proof {
                let kc = choose|j: int| 0 <= j < v0.len() && (#[trigger] v0[j]).name == cv.name;
                assert(kc == k0);
                assert(fs@.map_values(|x: FunctionChunk| chunk_view(x)) =~= v0.update(k0, cv));
            }
            return;
        }
        assert(v0[k as int].name != cv.name);
        k += 1;
    }
    fs.push(c);
    proof {
        assert(fs@.map_values(|x: FunctionChunk| chunk_view(x)) =~= v0.push(cv));
        let w = v0.push(cv);
        assert forall|a: int, b: int| 0 <= a < w.len() && 0 <= b < w.len() && a != b implies (#[trigger] w[a]).name != (#[trigger] w[b]).name by {
            if a < v0.len() && b < v0.len() {
                assert(v0[a].name != v0[b].name);
            }
        }
    }
}

/// Reads `n` struct shapes.
fn take_shapes(bytes: &[u8], idx: &mut usize, n: u32) -> (r: Result<Vec<StructShape>, String>)
    requires
        *old(idx) <= bytes@.len(),
    ensures
        *old(idx) <= *final(idx) <= bytes@.len(),
        match (r, read_shapes(bytes@, *old(idx) as int, n as nat)) {
            (Ok(x), Ok((y, j))) => x@.map_values(|s: StructShape| shape_view(s)) == y && *final(idx) == j,
            (Err(m), Err(e)) => m@ == e,
            _ => false,
        },
{
    let ghost i0 = *idx as int;
    let mut out: Vec<StructShape> = Vec::new();
    let mut c: u32 = 0;
    while c < n
        invariant
            c <= n,
            i0 == *old(idx) as int,
            i0 <= *idx <= bytes@.len(),
            read_shapes(bytes@, i0, n as nat) == after(
                out@.map_values(|s: StructShape| shape_view(s)),
                read_shapes(bytes@, *idx as int, (n - c) as nat),
            ),
        decreases n - c,
    {
        let ghost before = out@.map_values(|s: StructShape| shape_view(s));
        let ghost at = *idx as int;
        let x = match take_shape(bytes, idx) {
            Ok(x) => x,
            Err(e) => {
                proof {
                    assert(read_shapes(bytes@, at, (n - c) as nat) == Err::<(Seq<ShapeV>, int), Seq<char>>(e@));
                }
                return Err(e);
            },
        };
        let ghost xv = shape_view(x);
        out.push(x);
        proof {
            assert(out@.map_values(|s: StructShape| shape_view(s)) =~= before.push(xv));
            let rest = read_shapes(bytes@, *idx as int, (n - c - 1) as nat);
            match rest {
                Ok((xs, k)) => {
                    assert(before + (seq![xv] + xs) =~= out@.map_values(|s: StructShape| shape_view(s)) + xs);
                },
                Err(_) => {},
            }
        }
        c += 1;
    }
    let ghost sv = out@.map_values(|s: StructShape| shape_view(s));
    assert(sv + Seq::<ShapeV>::empty() =~= sv);
    Ok(out)
}

/// Reads `n` functions, putting each under its name.
fn take_chunks(bytes: &[u8], idx: &mut usize, n: u32, f: Ghost<nat>) -> (r: Result<Vec<FunctionChunk>, String>)
    requires
        *old(idx) <= bytes@.len(),
        f@ >= bytes@.len() - *old(idx) + 1,
    ensures
        *old(idx) <= *final(idx) <= bytes@.len(),
        match (r, read_chunks(bytes@, *old(idx) as int, n as nat, f@)) {
            (Ok(x), Ok((y, j))) => x@.map_values(|c: FunctionChunk| chunk_view(c)) == by_name(y) && *final(idx) == j,
            (Err(m), Err(e)) => m@ == e,
            _ => false,
        },
{
    let ghost i0 = *idx as int;
    let ghost chunks: Seq<ChunkV> = Seq::empty();
    let mut functions: Vec<FunctionChunk> = Vec::new();
    let mut c: u32 = 0;
    while c < n
        invariant
            c <= n,
            i0 == *old(idx) as int,
            i0 <= *idx <= bytes@.len(),
            f@ >= bytes@.len() - i0 + 1,
            read_chunks(bytes@, i0, n as nat, f@) == after(chunks, read_chunks(bytes@, *idx as int, (n - c) as nat, f@)),
            functions@.map_values(|x: FunctionChunk| chunk_view(x)) == by_name(chunks),
            distinct_names(by_name(chunks)),
        decreases n - c,
    {
        let ghost at = *idx as int;
        let x = match take_chunk(bytes, idx, f) {
            Ok(x) => x,
            Err(e) => {
                proof {
                    assert(read_chunks(bytes@, at, (n - c) as nat, f@) == Err::<(Seq<ChunkV>, int), Seq<char>>(e@));
                }
                return Err(e);
            },
        };
        let ghost xv = chunk_view(x);
        put_chunk(&mut functions, x);
        proof {
            let next = chunks.push(xv);
            assert(next.drop_last() =~= chunks);
            let rest = read_chunks(bytes@, *idx as int, (n - c - 1) as nat, f@);
            match rest {
                Ok((xs, k)) => {
                    assert(chunks + (seq![xv] + xs) =~= next + xs);
                },
                Err(_) => {},
            }
            chunks = next;
        }
        c += 1;
    }
    assert(chunks + Seq::<ChunkV>::empty() =~= chunks);
    Ok(functions)
}

impl BytecodeModule {
    /// The module in `bytes` (see `read_module`), or the message of what is
    /// wrong with them.
    pub fn from_bytes(bytes: &[u8]) -> (r: Result<BytecodeModule, String>)
        ensures
            match (r, read_module(bytes@)) {
                (Ok(m), Ok(v)) => module_view(m) == v,
                (Err(msg), Err(e)) => msg@ == e,
                _ => false,
            },
            r matches Ok(m) ==> distinct_names(module_view(m).functions),
    {
        let mut idx: usize = 0;
        match take_bytes(bytes, &mut idx, 4) {
            Ok(_) => {},
            Err(e) => return Err(e),
        }
        if !(bytes[0] == 83 && bytes[1] == 75 && bytes[2] == 66 && bytes[3] == 67) {
            proof {
                if bytes@.subrange(0, 4) == magic() {
                    assert(bytes@.subrange(0, 4)[0] == bytes@[0]);
                    assert(bytes@.subrange(0, 4)[1] == bytes@[1]);
                    assert(bytes@.subrange(0, 4)[2] == bytes@[2]);
                    assert(bytes@.subrange(0, 4)[3] == bytes@[3]);
                }
            }
            return Err(String::from_str("Invalid bytecode magic header"));
        }
        assert(bytes@.subrange(0, 4) =~= magic());
        let version = match take_word(bytes, &mut idx) {
            Ok(x) => x,
            Err(e) => return Err(e),
        };
        if version != 4 {
            let mut m = String::from_str("Unsupported bytecode version ");
            m.append(u64_text(version as u64).as_str());
            return Err(m);
        }
        let funcs_len = match take_word(bytes, &mut idx) {
            Ok(x) => x,
            Err(e) => return Err(e),
        };
        let names_len = match take_word(bytes, &mut idx) {
            Ok(x) => x,
            Err(e) => return Err(e),
        };
        let method_names = match take_texts(bytes, &mut idx, names_len) {
            Ok(x) => x,
            Err(e) => return Err(e),
        };
        let shapes_len = match take_word(bytes, &mut idx) {
            Ok(x) => x,
            Err(e) => return Err(e),
        };
        let struct_shapes = match take_shapes(bytes, &mut idx, shapes_len) {
            Ok(x) => x,
            Err(e) => return Err(e),
        };
        let functions = match take_chunks(bytes, &mut idx, funcs_len, Ghost((bytes@.len() + 1) as nat)) {
            Ok(x) => x,
            Err(e) => return Err(e),
        };
        proof {
            assert forall|cs: Seq<ChunkV>| distinct_names(#[trigger] by_name(cs)) by {
                lemma_by_name_distinct(cs);
            }
        }
        Ok(BytecodeModule { functions, method_names, struct_shapes })
    }
}

} // verus!
