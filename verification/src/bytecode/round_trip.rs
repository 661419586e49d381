//! Reading back what was written: the readers of `decode` give back every
//! module, instruction and value whose byte form the writers of `codec`
//! produce, where its counts, slots and texts fit in four bytes.

use vstd::prelude::*;

use crate::bytecode::codec::{
    enc_instr, enc_chunk, enc_chunks, enc_code, enc_field, enc_fields, enc_module, enc_parts, enc_shape, enc_shapes, enc_slots,
    enc_texts, enc_value, enc_values, i64_le, le_bytes, op_code, str_le, u32_le, u64_le,
};
use crate::bytecode::decode::{
    by_name, distinct_names, fits, instr_kinds, le_value, magic, op_of, put_function, read_byte, read_chunk,
    read_chunks, read_field, read_fields, read_instr, read_instrs, read_int, read_long, read_module, read_op,
    read_shape, read_shapes, read_slots, read_text, read_texts, read_value, read_values, read_word, KindV,
};
use crate::bytecode::{instr_parts, ChunkV, FieldV, Instr, ModuleV, ShapeV, ValueV};
use crate::ir::consts::utf8;

verus! {

/// `e` stands in `b` from position `i` on.
pub open spec fn at(b: Seq<u8>, i: int, e: Seq<u8>) -> bool {
    0 <= i && i + e.len() <= b.len() && b.subrange(i, i + e.len()) == e
}

/// A count that four bytes hold.
pub open spec fn small(n: int) -> bool {
    0 <= n < 0x1_0000_0000
}

/// `at` of a concatenation is `at` of each part, one after the other.
proof fn lemma_at_split(b: Seq<u8>, i: int, e1: Seq<u8>, e2: Seq<u8>)
    requires
        at(b, i, e1 + e2),
    ensures
        at(b, i, e1),
        at(b, i + e1.len(), e2),
{
    let e = e1 + e2;
    let w = b.subrange(i, i + e.len());
    assert forall|k: int| 0 <= k < e1.len() implies #[trigger] b.subrange(i, i + e1.len())[k] == e1[k] by {
        assert(w[k] == b[i + k]);
        assert(e[k] == e1[k]);
    }
    assert(b.subrange(i, i + e1.len()) =~= e1);
    assert forall|k: int| 0 <= k < e2.len() implies #[trigger] b.subrange(i + e1.len(), i + e1.len() + e2.len())[k] == e2[k] by {
        assert(w[e1.len() + k] == b[i + e1.len() + k]);
        assert(e[e1.len() + k] == e2[k]);
    }
    assert(b.subrange(i + e1.len(), i + e1.len() + e2.len()) =~= e2);
}

/// `256` to the power `n`.
pub open spec fn pow256(n: nat) -> nat
    decreases n,
{
    if n == 0 { 1 } else { 256 * pow256((n - 1) as nat) }
}

/// `n` bytes of `v` give back `v` where it is below `256^n`.
proof fn lemma_le_round(v: nat, n: nat)
    requires
        v < pow256(n),
    ensures
        le_bytes(v, n).len() == n,
        le_value(le_bytes(v, n)) == v,
    decreases n,
{
    if n > 0 {
        let p = pow256((n - 1) as nat);
        assert(pow256(n) == 256 * p);
        assert(v / 256 < p) by (nonlinear_arith)
            requires
                v < 256 * p,
        ;
        lemma_le_round(v / 256, (n - 1) as nat);
        let s = le_bytes(v, n);
        assert(s.drop_first() =~= le_bytes(v / 256, (n - 1) as nat));
        assert(v % 256 < 256);
        assert(s[0] as nat == v % 256);
        assert(le_value(s) == s[0] as nat + 256 * le_value(s.drop_first()));
        assert(v == v % 256 + 256 * (v / 256)) by (nonlinear_arith);
    }
}

/// A `u32` written is read back.
proof fn lemma_read_word(b: Seq<u8>, i: int, v: u32)
    requires
        at(b, i, u32_le(v)),
    ensures
        u32_le(v).len() == 4,
        read_word(b, i) == Ok::<(u32, int), Seq<char>>((v, i + 4)),
{
    assert(pow256(4) == 0x1_0000_0000) by {
        reveal_with_fuel(pow256, 5);
    }
    lemma_le_round(v as nat, 4);
}

/// A `u64` written is read back.
proof fn lemma_read_long(b: Seq<u8>, i: int, v: u64)
    requires
        at(b, i, u64_le(v)),
    ensures
        u64_le(v).len() == 8,
        read_long(b, i) == Ok::<(u64, int), Seq<char>>((v, i + 8)),
{
    assert(pow256(8) == 0x1_0000_0000_0000_0000) by {
        reveal_with_fuel(pow256, 9);
    }
    lemma_le_round(v as nat, 8);
}

/// An `i64` written is read back.
proof fn lemma_read_int(b: Seq<u8>, i: int, v: i64)
    requires
        at(b, i, i64_le(v)),
    ensures
        i64_le(v).len() == 8,
        read_int(b, i) == Ok::<(i64, int), Seq<char>>((v, i + 8)),
{
    lemma_read_long(b, i, v as u64);
    assert((v as u64) as i64 == v) by (bit_vector);
}

/// A text written is read back where its UTF-8 form is small.
proof fn lemma_read_text(b: Seq<u8>, i: int, s: Seq<char>)
    requires
        at(b, i, str_le(s)),
        small(utf8(s).len() as int),
    ensures
        read_text(b, i) == Ok::<(Seq<char>, int), Seq<char>>((s, i + str_le(s).len())),
{
    lemma_at_split(b, i, u32_le(utf8(s).len() as u32), utf8(s));
    lemma_read_word(b, i, utf8(s).len() as u32);
    vstd::utf8::encode_utf8_valid_utf8(s);
    vstd::utf8::encode_utf8_decode_utf8(s);
}

/// `enc_texts` taken from the front: the first item, then the rest.
proof fn lemma_front_texts(s: Seq<Seq<char>>)
    requires
        s.len() > 0,
    ensures
        enc_texts(s) == str_le(s[0]) + enc_texts(s.drop_first()),
    decreases s.len(),
{
    if s.len() == 1 {
        assert(s.drop_last() =~= Seq::<Seq<char>>::empty());
        assert(s.drop_first() =~= Seq::<Seq<char>>::empty());
        assert(enc_texts(s) =~= str_le(s[0]) + enc_texts(s.drop_first()));
    } else {
        lemma_front_texts(s.drop_last());
        assert(s.drop_last().drop_first() =~= s.drop_first().drop_last());
        assert(s.drop_first().last() == s.last());
        assert(s.drop_last()[0] == s[0]);
        assert(enc_texts(s) =~= str_le(s[0]) + enc_texts(s.drop_first()));
    }
}

/// `enc_slots` taken from the front: the first item, then the rest.
proof fn lemma_front_slots(s: Seq<usize>)
    requires
        s.len() > 0,
    ensures
        enc_slots(s) == u32_le(s[0] as u32) + enc_slots(s.drop_first()),
    decreases s.len(),
{
    if s.len() == 1 {
        assert(s.drop_last() =~= Seq::<usize>::empty());
        assert(s.drop_first() =~= Seq::<usize>::empty());
        assert(enc_slots(s) =~= u32_le(s[0] as u32) + enc_slots(s.drop_first()));
    } else {
        lemma_front_slots(s.drop_last());
        assert(s.drop_last().drop_first() =~= s.drop_first().drop_last());
        assert(s.drop_first().last() == s.last());
        assert(s.drop_last()[0] == s[0]);
        assert(enc_slots(s) =~= u32_le(s[0] as u32) + enc_slots(s.drop_first()));
    }
}

/// `enc_values` taken from the front: the first item, then the rest.
proof fn lemma_front_values(s: Seq<ValueV>)
    requires
        s.len() > 0,
    ensures
        enc_values(s) == enc_value(s[0]) + enc_values(s.drop_first()),
    decreases s.len(),
{
    if s.len() == 1 {
        assert(s.drop_last() =~= Seq::<ValueV>::empty());
        assert(s.drop_first() =~= Seq::<ValueV>::empty());
        assert(enc_values(s) =~= enc_value(s[0]) + enc_values(s.drop_first()));
    } else {
        lemma_front_values(s.drop_last());
        assert(s.drop_last().drop_first() =~= s.drop_first().drop_last());
        assert(s.drop_first().last() == s.last());
        assert(s.drop_last()[0] == s[0]);
        assert(enc_values(s) =~= enc_value(s[0]) + enc_values(s.drop_first()));
    }
}

/// `enc_fields` taken from the front: the first item, then the rest.
proof fn lemma_front_fields(s: Seq<FieldV>)
    requires
        s.len() > 0,
    ensures
        enc_fields(s) == enc_field(s[0]) + enc_fields(s.drop_first()),
    decreases s.len(),
{
    if s.len() == 1 {
        assert(s.drop_last() =~= Seq::<FieldV>::empty());
        assert(s.drop_first() =~= Seq::<FieldV>::empty());
        assert(enc_fields(s) =~= enc_field(s[0]) + enc_fields(s.drop_first()));
    } else {
        lemma_front_fields(s.drop_last());
        assert(s.drop_last().drop_first() =~= s.drop_first().drop_last());
        assert(s.drop_first().last() == s.last());
        assert(s.drop_last()[0] == s[0]);
        assert(enc_fields(s) =~= enc_field(s[0]) + enc_fields(s.drop_first()));
    }
}

/// `enc_code` taken from the front: the first item, then the rest.
proof fn lemma_front_code(s: Seq<(u8, Seq<FieldV>)>)
    requires
        s.len() > 0,
    ensures
        enc_code(s) == enc_parts(s[0]) + enc_code(s.drop_first()),
    decreases s.len(),
{
    if s.len() == 1 {
        assert(s.drop_last() =~= Seq::<(u8, Seq<FieldV>)>::empty());
        assert(s.drop_first() =~= Seq::<(u8, Seq<FieldV>)>::empty());
        assert(enc_code(s) =~= enc_parts(s[0]) + enc_code(s.drop_first()));
    } else {
        lemma_front_code(s.drop_last());
        assert(s.drop_last().drop_first() =~= s.drop_first().drop_last());
        assert(s.drop_first().last() == s.last());
        assert(s.drop_last()[0] == s[0]);
        assert(enc_code(s) =~= enc_parts(s[0]) + enc_code(s.drop_first()));
    }
}

/// `enc_shapes` taken from the front: the first item, then the rest.
proof fn lemma_front_shapes(s: Seq<ShapeV>)
    requires
        s.len() > 0,
    ensures
        enc_shapes(s) == enc_shape(s[0]) + enc_shapes(s.drop_first()),
    decreases s.len(),
{
    if s.len() == 1 {
        assert(s.drop_last() =~= Seq::<ShapeV>::empty());
        assert(s.drop_first() =~= Seq::<ShapeV>::empty());
        assert(enc_shapes(s) =~= enc_shape(s[0]) + enc_shapes(s.drop_first()));
    } else {
        lemma_front_shapes(s.drop_last());
        assert(s.drop_last().drop_first() =~= s.drop_first().drop_last());
        assert(s.drop_first().last() == s.last());
        assert(s.drop_last()[0] == s[0]);
        assert(enc_shapes(s) =~= enc_shape(s[0]) + enc_shapes(s.drop_first()));
    }
}

/// `enc_chunks` taken from the front: the first item, then the rest.
proof fn lemma_front_chunks(s: Seq<ChunkV>)
    requires
        s.len() > 0,
    ensures
        enc_chunks(s) == enc_chunk(s[0]) + enc_chunks(s.drop_first()),
    decreases s.len(),
{
    if s.len() == 1 {
        assert(s.drop_last() =~= Seq::<ChunkV>::empty());
        assert(s.drop_first() =~= Seq::<ChunkV>::empty());
        assert(enc_chunks(s) =~= enc_chunk(s[0]) + enc_chunks(s.drop_first()));
    } else {
        lemma_front_chunks(s.drop_last());
        assert(s.drop_last().drop_first() =~= s.drop_first().drop_last());
        assert(s.drop_first().last() == s.last());
        assert(s.drop_last()[0] == s[0]);
        assert(enc_chunks(s) =~= enc_chunk(s[0]) + enc_chunks(s.drop_first()));
    }
}

/// Every text of `ts` has a small UTF-8 form, and there are few enough of them.
pub open spec fn texts_codable(ts: Seq<Seq<char>>) -> bool {
    small(ts.len() as int) && forall|k: int| 0 <= k < ts.len() ==> small(#[trigger] utf8(ts[k]).len() as int)
}

/// Texts written are read back.
proof fn lemma_read_texts(b: Seq<u8>, i: int, ts: Seq<Seq<char>>)
    requires
        forall|k: int| 0 <= k < ts.len() ==> small(#[trigger] utf8(ts[k]).len() as int),
        at(b, i, enc_texts(ts)),
    ensures
        read_texts(b, i, ts.len()) == Ok::<(Seq<Seq<char>>, int), Seq<char>>((ts, i + enc_texts(ts).len())),
    decreases ts.len(),
{
    if ts.len() == 0 {
        assert(ts =~= Seq::<Seq<char>>::empty());
    } else {
        lemma_front_texts(ts);
        lemma_at_split(b, i, str_le(ts[0]), enc_texts(ts.drop_first()));
        assert(small(utf8(ts[0]).len() as int));
        lemma_read_text(b, i, ts[0]);
        assert forall|k: int| 0 <= k < ts.drop_first().len() implies small(#[trigger] utf8(ts.drop_first()[k]).len() as int) by {
            assert(ts.drop_first()[k] == ts[k + 1]);
        }
        lemma_read_texts(b, i + str_le(ts[0]).len(), ts.drop_first());
        assert(seq![ts[0]] + ts.drop_first() =~= ts);
    }
}

/// Slots written are read back where each is small.
proof fn lemma_read_slots(b: Seq<u8>, i: int, ss: Seq<usize>)
    requires
        forall|k: int| 0 <= k < ss.len() ==> small(#[trigger] ss[k] as int),
        at(b, i, enc_slots(ss)),
    ensures
        read_slots(b, i, ss.len()) == Ok::<(Seq<usize>, int), Seq<char>>((ss, i + enc_slots(ss).len())),
    decreases ss.len(),
{
    if ss.len() == 0 {
        assert(ss =~= Seq::<usize>::empty());
    } else {
        lemma_front_slots(ss);
        lemma_at_split(b, i, u32_le(ss[0] as u32), enc_slots(ss.drop_first()));
        lemma_read_word(b, i, ss[0] as u32);
        assert(small(ss[0] as int));
        assert(((ss[0] as u32) as usize) == ss[0]);
        assert forall|k: int| 0 <= k < ss.drop_first().len() implies small(#[trigger] ss.drop_first()[k] as int) by {
            assert(ss.drop_first()[k] == ss[k + 1]);
        }
        lemma_read_slots(b, i + 4, ss.drop_first());
        assert(seq![ss[0]] + ss.drop_first() =~= ss);
    }
}

/// A value has a byte form that reads back: no vector handle, and its counts,
/// indexes and texts are small.
pub open spec fn value_codable(v: ValueV) -> bool
    decreases v,
{
    match v {
        ValueV::Str(s) => small(utf8(s).len() as int),
        ValueV::Function(s) => small(utf8(s).len() as int),
        ValueV::Array(items) => small(items.len() as int) && values_codable(items),
        ValueV::VecHandle(_) => false,
        ValueV::FunctionIdx(i) => small(i as int),
        ValueV::Struct(name, names, fields) => small(utf8(name).len() as int) && texts_codable(names)
            && small(fields.len() as int) && values_codable(fields),
        _ => true,
    }
}

/// Every value of `s` is codable.
pub open spec fn values_codable(s: Seq<ValueV>) -> bool
    decreases s,
{
    s.len() == 0 || (values_codable(s.drop_last()) && value_codable(s.last()))
}

/// `values_codable` holds just when each value is codable.
proof fn lemma_values_codable(s: Seq<ValueV>)
    ensures
        values_codable(s) <==> forall|k: int| 0 <= k < s.len() ==> value_codable(#[trigger] s[k]),
    decreases s.len(),
{
    if s.len() > 0 {
        lemma_values_codable(s.drop_last());
        if forall|k: int| 0 <= k < s.len() ==> value_codable(#[trigger] s[k]) {
            assert forall|k: int| 0 <= k < s.drop_last().len() implies value_codable(#[trigger] s.drop_last()[k]) by {
                assert(s.drop_last()[k] == s[k]);
            }
        }
        if values_codable(s) {
            assert forall|k: int| 0 <= k < s.len() implies value_codable(#[trigger] s[k]) by {
                if k < s.len() - 1 {
                    assert(s.drop_last()[k] == s[k]);
                }
            }
        }
    }
}

/// The first byte of `at(b, i, seq![t] + e)` is `t`.
proof fn lemma_read_tag(b: Seq<u8>, i: int, t: u8, e: Seq<u8>)
    requires
        at(b, i, seq![t] + e),
    ensures
        read_byte(b, i) == Ok::<(u8, int), Seq<char>>((t, i + 1)),
        at(b, i + 1, e),
{
    lemma_at_split(b, i, seq![t], e);
    assert(b.subrange(i, i + 1)[0] == b[i]);
}

/// A codable value written is read back, given more depth than it has bytes.
#[verifier::rlimit(60)]
#[verifier::spinoff_prover]
proof fn lemma_read_value(b: Seq<u8>, i: int, v: ValueV, f: nat)
    requires
        value_codable(v),
        at(b, i, enc_value(v)),
        f > enc_value(v).len(),
    ensures
        read_value(b, i, f) == Ok::<(ValueV, int), Seq<char>>((v, i + enc_value(v).len())),
    decreases v,
{
    let goal = Ok::<(ValueV, int), Seq<char>>((v, i + enc_value(v).len()));
    match v {
        ValueV::Int(n) => {
            assert(read_value(b, i, f) == goal) by {
                lemma_read_tag(b, i, 0, i64_le(n));
                lemma_read_int(b, i + 1, n);
            }
        },
        ValueV::Float(x) => {
            assert(read_value(b, i, f) == goal) by {
                lemma_read_tag(b, i, 1, u64_le(x));
                lemma_read_long(b, i + 1, x);
            }
        },
        ValueV::Bool(x) => {
            assert(read_value(b, i, f) == goal) by {
                let e = seq![if x { 1u8 } else { 0u8 }];
                assert(enc_value(v) =~= seq![2u8] + e);
                lemma_read_tag(b, i, 2, e);
                assert(b.subrange(i + 1, i + 2)[0] == b[i + 1]);
            }
        },
        ValueV::Str(s) => {
            assert(read_value(b, i, f) == goal) by {
                lemma_read_tag(b, i, 3, str_le(s));
                lemma_read_text(b, i + 1, s);
            }
        },
        ValueV::Array(items) => {
            assert(read_value(b, i, f) == goal) by {
                let e = u32_le(items.len() as u32) + enc_values(items);
                assert(enc_value(v) =~= seq![4u8] + e);
                lemma_read_tag(b, i, 4, e);
                lemma_at_split(b, i + 1, u32_le(items.len() as u32), enc_values(items));
                lemma_read_word(b, i + 1, items.len() as u32);
                lemma_read_values(b, i + 5, items, (f - 1) as nat);
            }
        },
        ValueV::VecHandle(_) => {},
        ValueV::Function(s) => {
            assert(read_value(b, i, f) == goal) by {
                lemma_read_tag(b, i, 5, str_le(s));
                lemma_read_text(b, i + 1, s);
            }
        },
        ValueV::FunctionIdx(x) => {
            assert(read_value(b, i, f) == goal) by {
                lemma_read_tag(b, i, 8, u32_le(x as u32));
                lemma_read_word(b, i + 1, x as u32);
            }
        },
        ValueV::Struct(name, names, fields) => {
            assert(read_value(b, i, f) == goal) by {
                let p1 = str_le(name);
                let p2 = u32_le(names.len() as u32);
                let p3 = enc_texts(names);
                let p4 = u32_le(fields.len() as u32);
                let p5 = enc_values(fields);
                let e = p1 + p2 + p3 + p4 + p5;
                assert(enc_value(v) =~= seq![7u8] + e);
                lemma_read_tag(b, i, 7, e);
                lemma_at_split(b, i + 1, p1 + p2 + p3 + p4, p5);
                lemma_at_split(b, i + 1, p1 + p2 + p3, p4);
                lemma_at_split(b, i + 1, p1 + p2, p3);
                lemma_at_split(b, i + 1, p1, p2);
                lemma_read_text(b, i + 1, name);
                lemma_read_word(b, i + 1 + p1.len(), names.len() as u32);
                lemma_read_texts(b, i + 1 + p1.len() + 4, names);
                lemma_read_word(b, i + 1 + p1.len() + 4 + p3.len(), fields.len() as u32);
                lemma_read_values(b, i + 1 + p1.len() + 4 + p3.len() + 4, fields, (f - 1) as nat);
            }
        },
        ValueV::Unit => {
            assert(read_value(b, i, f) == goal) by {
                lemma_read_tag(b, i, 6, Seq::<u8>::empty());
                assert(enc_value(v) =~= seq![6u8] + Seq::<u8>::empty());
            }
        },
    }
}

/// Codable values written are read back, given more depth than they have bytes.
proof fn lemma_read_values(b: Seq<u8>, i: int, vs: Seq<ValueV>, f: nat)
    requires
        values_codable(vs),
        at(b, i, enc_values(vs)),
        f > enc_values(vs).len(),
    ensures
        read_values(b, i, vs.len(), f) == Ok::<(Seq<ValueV>, int), Seq<char>>((vs, i + enc_values(vs).len())),
    decreases vs,
{
    if vs.len() == 0 {
        assert(vs =~= Seq::<ValueV>::empty());
    } else {
        lemma_front_values(vs);
        lemma_values_codable(vs);
        lemma_values_codable(vs.drop_first());
        assert forall|k: int| 0 <= k < vs.drop_first().len() implies value_codable(#[trigger] vs.drop_first()[k]) by {
            assert(vs.drop_first()[k] == vs[k + 1]);
        }
        lemma_at_split(b, i, enc_value(vs[0]), enc_values(vs.drop_first()));
        lemma_read_value(b, i, vs[0], f);
        lemma_read_values(b, i + enc_value(vs[0]).len(), vs.drop_first(), f);
        assert(seq![vs[0]] + vs.drop_first() =~= vs);
    }
}

/// An operand has a byte form that reads back.
pub open spec fn field_codable(x: FieldV) -> bool {
    match x {
        FieldV::Slot(s) => small(s as int),
        FieldV::Text(t) => small(utf8(t).len() as int),
        FieldV::Texts(ts) => texts_codable(ts),
        FieldV::Slots(ss) => small(ss.len() as int) && forall|k: int| 0 <= k < ss.len() ==> small(#[trigger] ss[k] as int),
        FieldV::Val(v) => value_codable(v),
        _ => true,
    }
}

/// A codable operand of kind `k` written is read back.
proof fn lemma_read_field(b: Seq<u8>, i: int, x: FieldV, k: KindV, f: nat)
    requires
        fits(x, k),
        field_codable(x),
        at(b, i, enc_field(x)),
        f > enc_field(x).len(),
    ensures
        read_field(b, i, k, f) == Ok::<(FieldV, int), Seq<char>>((x, i + enc_field(x).len())),
{
    let goal = Ok::<(FieldV, int), Seq<char>>((x, i + enc_field(x).len()));
    match x {
        FieldV::Slot(s) => {
            assert(read_field(b, i, k, f) == goal) by {
                lemma_read_word(b, i, s as u32);
            }
        },
        FieldV::Int(v) => {
            assert(read_field(b, i, k, f) == goal) by {
                lemma_read_int(b, i, v);
            }
        },
        FieldV::Half(h) => {
            assert(read_field(b, i, k, f) == goal) by {
                lemma_read_word(b, i, h as u32);
                assert(((h as u32) as u16) == h);
            }
        },
        FieldV::Op(op) => {
            assert(read_field(b, i, k, f) == goal) by {
                assert(b.subrange(i, i + 1)[0] == b[i]);
                assert(b[i] == op_code(op));
                assert(op_of(op_code(op)) == op);
            }
        },
        FieldV::Text(t) => {
            assert(read_field(b, i, k, f) == goal) by {
                lemma_read_text(b, i, t);
            }
        },
        FieldV::Texts(ts) => {
            assert(read_field(b, i, k, f) == goal) by {
                lemma_at_split(b, i, u32_le(ts.len() as u32), enc_texts(ts));
                lemma_read_word(b, i, ts.len() as u32);
                lemma_read_texts(b, i + 4, ts);
            }
        },
        FieldV::Slots(ss) => {
            assert(read_field(b, i, k, f) == goal) by {
                lemma_at_split(b, i, u32_le(ss.len() as u32), enc_slots(ss));
                lemma_read_word(b, i, ss.len() as u32);
                lemma_read_slots(b, i + 4, ss);
            }
        },
        FieldV::Val(v) => {
            assert(read_field(b, i, k, f) == goal) by {
                lemma_read_value(b, i, v, f);
            }
        },
    }
}

/// Codable operands of the kinds `ks` written are read back.
proof fn lemma_read_fields(b: Seq<u8>, i: int, xs: Seq<FieldV>, ks: Seq<KindV>, f: nat)
    requires
        xs.len() == ks.len(),
        forall|j: int| 0 <= j < xs.len() ==> fits(#[trigger] xs[j], ks[j]) && field_codable(xs[j]),
        at(b, i, enc_fields(xs)),
        f > enc_fields(xs).len(),
    ensures
        read_fields(b, i, ks, f) == Ok::<(Seq<FieldV>, int), Seq<char>>((xs, i + enc_fields(xs).len())),
    decreases xs.len(),
{
    if xs.len() == 0 {
        assert(xs =~= Seq::<FieldV>::empty());
    } else {
        lemma_front_fields(xs);
        lemma_at_split(b, i, enc_field(xs[0]), enc_fields(xs.drop_first()));
        assert(fits(xs[0], ks[0]) && field_codable(xs[0]));
        lemma_read_field(b, i, xs[0], ks[0], f);
        assert forall|j: int| 0 <= j < xs.drop_first().len() implies fits(#[trigger] xs.drop_first()[j], ks.drop_first()[j])
            && field_codable(xs.drop_first()[j]) by {
            assert(xs.drop_first()[j] == xs[j + 1]);
            assert(ks.drop_first()[j] == ks[j + 1]);
            assert(fits(xs[j + 1], ks[j + 1]));
        }
        lemma_read_fields(b, i + enc_field(xs[0]).len(), xs.drop_first(), ks.drop_first(), f);
        assert(seq![xs[0]] + xs.drop_first() =~= xs);
    }
}

/// The view of an instruction that reads back: an opcode that exists, with
/// codable operands of the kinds it calls for.
pub open spec fn parts_codable(p: (u8, Seq<FieldV>)) -> bool {
    &&& instr_kinds(p.0) is Some
    &&& instr_kinds(p.0).unwrap().len() == p.1.len()
    &&& forall|j: int| 0 <= j < p.1.len() ==> fits(#[trigger] p.1[j], instr_kinds(p.0).unwrap()[j]) && field_codable(p.1[j])
}

/// A codable instruction written is read back.
proof fn lemma_read_instr(b: Seq<u8>, i: int, p: (u8, Seq<FieldV>), f: nat)
    requires
        parts_codable(p),
        at(b, i, enc_parts(p)),
        f > enc_parts(p).len(),
    ensures
        read_instr(b, i, f) == Ok::<((u8, Seq<FieldV>), int), Seq<char>>((p, i + enc_parts(p).len())),
{
    lemma_read_tag(b, i, p.0, enc_fields(p.1));
    lemma_read_fields(b, i + 1, p.1, instr_kinds(p.0).unwrap(), f);
}

/// Codable instructions written are read back.
proof fn lemma_read_instrs(b: Seq<u8>, i: int, code: Seq<(u8, Seq<FieldV>)>, f: nat)
    requires
        forall|j: int| 0 <= j < code.len() ==> parts_codable(#[trigger] code[j]),
        at(b, i, enc_code(code)),
        f > enc_code(code).len(),
    ensures
        read_instrs(b, i, code.len(), f) == Ok::<(Seq<(u8, Seq<FieldV>)>, int), Seq<char>>((code, i + enc_code(code).len())),
    decreases code.len(),
{
    if code.len() == 0 {
        assert(code =~= Seq::<(u8, Seq<FieldV>)>::empty());
    } else {
        lemma_front_code(code);
        lemma_at_split(b, i, enc_parts(code[0]), enc_code(code.drop_first()));
        lemma_read_instr(b, i, code[0], f);
        assert forall|j: int| 0 <= j < code.drop_first().len() implies parts_codable(#[trigger] code.drop_first()[j]) by {
            assert(code.drop_first()[j] == code[j + 1]);
        }
        lemma_read_instrs(b, i + enc_parts(code[0]).len(), code.drop_first(), f);
        assert(seq![code[0]] + code.drop_first() =~= code);
    }
}

/// A function has a byte form that reads back.
pub open spec fn chunk_codable(c: ChunkV) -> bool {
    &&& small(utf8(c.name).len() as int)
    &&& small(c.locals_count as int)
    &&& small(c.param_count as int)
    &&& small(c.code.len() as int)
    &&& forall|j: int| 0 <= j < c.code.len() ==> parts_codable(#[trigger] c.code[j])
}

/// A codable function written is read back.
proof fn lemma_read_chunk(b: Seq<u8>, i: int, c: ChunkV, f: nat)
    requires
        chunk_codable(c),
        at(b, i, enc_chunk(c)),
        f > enc_chunk(c).len(),
    ensures
        read_chunk(b, i, f) == Ok::<(ChunkV, int), Seq<char>>((c, i + enc_chunk(c).len())),
{
    let p1 = str_le(c.name);
    let p2 = u32_le(c.locals_count as u32);
    let p3 = u32_le(c.param_count as u32);
    let p4 = u32_le(c.code.len() as u32);
    let p5 = enc_code(c.code);
    lemma_at_split(b, i, p1 + p2 + p3 + p4, p5);
    lemma_at_split(b, i, p1 + p2 + p3, p4);
    lemma_at_split(b, i, p1 + p2, p3);
    lemma_at_split(b, i, p1, p2);
    lemma_read_text(b, i, c.name);
    lemma_read_word(b, i + p1.len(), c.locals_count as u32);
    lemma_read_word(b, i + p1.len() + 4, c.param_count as u32);
    lemma_read_word(b, i + p1.len() + 8, c.code.len() as u32);
    lemma_read_instrs(b, i + p1.len() + 12, c.code, f);
}

/// Codable functions written are read back.
proof fn lemma_read_chunks(b: Seq<u8>, i: int, cs: Seq<ChunkV>, f: nat)
    requires
        forall|j: int| 0 <= j < cs.len() ==> chunk_codable(#[trigger] cs[j]),
        at(b, i, enc_chunks(cs)),
        f > enc_chunks(cs).len(),
    ensures
        read_chunks(b, i, cs.len(), f) == Ok::<(Seq<ChunkV>, int), Seq<char>>((cs, i + enc_chunks(cs).len())),
    decreases cs.len(),
{
    if cs.len() == 0 {
        assert(cs =~= Seq::<ChunkV>::empty());
    } else {
        lemma_front_chunks(cs);
        lemma_at_split(b, i, enc_chunk(cs[0]), enc_chunks(cs.drop_first()));
        lemma_read_chunk(b, i, cs[0], f);
        assert forall|j: int| 0 <= j < cs.drop_first().len() implies chunk_codable(#[trigger] cs.drop_first()[j]) by {
            assert(cs.drop_first()[j] == cs[j + 1]);
        }
        lemma_read_chunks(b, i + enc_chunk(cs[0]).len(), cs.drop_first(), f);
        assert(seq![cs[0]] + cs.drop_first() =~= cs);
    }
}

/// A struct shape has a byte form that reads back.
pub open spec fn shape_codable(s: ShapeV) -> bool {
    small(utf8(s.name).len() as int) && texts_codable(s.field_names)
}

/// A codable struct shape written is read back.
proof fn lemma_read_shape(b: Seq<u8>, i: int, s: ShapeV)
    requires
        shape_codable(s),
        at(b, i, enc_shape(s)),
    ensures
        read_shape(b, i) == Ok::<(ShapeV, int), Seq<char>>((s, i + enc_shape(s).len())),
{
    let p1 = str_le(s.name);
    let p2 = u32_le(s.field_names.len() as u32);
    let p3 = enc_texts(s.field_names);
    lemma_at_split(b, i, p1 + p2, p3);
    lemma_at_split(b, i, p1, p2);
    lemma_read_text(b, i, s.name);
    lemma_read_word(b, i + p1.len(), s.field_names.len() as u32);
    lemma_read_texts(b, i + p1.len() + 4, s.field_names);
}

/// Codable struct shapes written are read back.
proof fn lemma_read_shapes(b: Seq<u8>, i: int, ss: Seq<ShapeV>)
    requires
        forall|j: int| 0 <= j < ss.len() ==> shape_codable(#[trigger] ss[j]),
        at(b, i, enc_shapes(ss)),
    ensures
        read_shapes(b, i, ss.len()) == Ok::<(Seq<ShapeV>, int), Seq<char>>((ss, i + enc_shapes(ss).len())),
    decreases ss.len(),
{
    if ss.len() == 0 {
        assert(ss =~= Seq::<ShapeV>::empty());
    } else {
        lemma_front_shapes(ss);
        lemma_at_split(b, i, enc_shape(ss[0]), enc_shapes(ss.drop_first()));
        lemma_read_shape(b, i, ss[0]);
        assert forall|j: int| 0 <= j < ss.drop_first().len() implies shape_codable(#[trigger] ss.drop_first()[j]) by {
            assert(ss.drop_first()[j] == ss[j + 1]);
        }
        lemma_read_shapes(b, i + enc_shape(ss[0]).len(), ss.drop_first());
        assert(seq![ss[0]] + ss.drop_first() =~= ss);
    }
}

/// Putting functions with distinct names under their names keeps them as
/// they are.
proof fn lemma_by_name_distinct(cs: Seq<ChunkV>)
    requires
        distinct_names(cs),
    ensures
        by_name(cs) == cs,
    decreases cs.len(),
{
    if cs.len() > 0 {
        let rest = cs.drop_last();
        assert(distinct_names(rest)) by {
            assert forall|a: int, b: int| 0 <= a < rest.len() && 0 <= b < rest.len() && a != b implies (#[trigger] rest[a]).name != (#[trigger] rest[b]).name by {
                assert(rest[a] == cs[a] && rest[b] == cs[b]);
            }
        }
        lemma_by_name_distinct(rest);
        assert(!exists|k: int| 0 <= k < rest.len() && (#[trigger] rest[k]).name == cs.last().name) by {
            assert forall|k: int| 0 <= k < rest.len() implies (#[trigger] rest[k]).name != cs.last().name by {
                assert(rest[k] == cs[k]);
                assert(cs[k].name != cs[cs.len() - 1].name);
            }
        }
        assert(put_function(rest, cs.last()) =~= cs);
    }
}

/// A module has a byte form that reads back: its counts and texts are small,
/// its values storable, its instructions real, and no two of its functions
/// share a name.
pub open spec fn module_codable(m: ModuleV) -> bool {
    &&& small(m.functions.len() as int)
    &&& texts_codable(m.method_names)
    &&& small(m.struct_shapes.len() as int)
    &&& forall|j: int| 0 <= j < m.struct_shapes.len() ==> shape_codable(#[trigger] m.struct_shapes[j])
    &&& forall|j: int| 0 <= j < m.functions.len() ==> chunk_codable(#[trigger] m.functions[j])
    &&& distinct_names(m.functions)
}

/// Reading back the bytes of a module gives the module, for every module
/// that has a byte form that reads back (see `module_codable`).
#[verifier::rlimit(60)]
#[verifier::spinoff_prover]
pub proof fn lemma_module_round_trip(m: ModuleV)
    requires
        module_codable(m),
    ensures
        read_module(enc_module(m)) == Ok::<ModuleV, Seq<char>>(m),
{
    let b = enc_module(m);
    let q1 = magic();
    let q2 = u32_le(4);
    let q3 = u32_le(m.functions.len() as u32);
    let q4 = u32_le(m.method_names.len() as u32);
    let q5 = enc_texts(m.method_names);
    let q6 = u32_le(m.struct_shapes.len() as u32);
    let q7 = enc_shapes(m.struct_shapes);
    let q8 = enc_chunks(m.functions);
    lemma_u32_len(4);
    lemma_u32_len(m.functions.len() as u32);
    lemma_u32_len(m.method_names.len() as u32);
    lemma_u32_len(m.struct_shapes.len() as u32);
    let i5 = 16 + q5.len() as int;
    let i7 = 20 + q5.len() as int + q7.len() as int;
    assert(at(b, 0, b)) by {
        assert(b.subrange(0, b.len() as int) =~= b);
    }
    assert(at(b, i7, q8) && at(b, i5 + 4, q7) && at(b, i5, q6) && at(b, 16, q5) && at(b, 12, q4) && at(b, 8, q3) && at(b, 4, q2) && at(b, 0, q1)) by {
        lemma_at_split(b, 0, q1 + q2 + q3 + q4 + q5 + q6 + q7, q8);
        lemma_at_split(b, 0, q1 + q2 + q3 + q4 + q5 + q6, q7);
        lemma_at_split(b, 0, q1 + q2 + q3 + q4 + q5, q6);
        lemma_at_split(b, 0, q1 + q2 + q3 + q4, q5);
        lemma_at_split(b, 0, q1 + q2 + q3, q4);
        lemma_at_split(b, 0, q1 + q2, q3);
        lemma_at_split(b, 0, q1, q2);
    }
    assert(b.subrange(0, 4) == magic());
    lemma_read_word(b, 4, 4);
    lemma_read_word(b, 8, m.functions.len() as u32);
    lemma_read_word(b, 12, m.method_names.len() as u32);
    lemma_read_texts(b, 16, m.method_names);
    lemma_read_word(b, i5, m.struct_shapes.len() as u32);
    lemma_read_shapes(b, i5 + 4, m.struct_shapes);
    lemma_read_chunks(b, i7, m.functions, (b.len() + 1) as nat);
    lemma_by_name_distinct(m.functions);
}

/// Four bytes hold a `u32`.
proof fn lemma_u32_len(v: u32)
    ensures
        u32_le(v).len() == 4,
{
    reveal_with_fuel(le_bytes, 5);
}

/// Every instruction's opcode exists and calls for the kinds of its operands,
/// so an instruction whose operands are codable is codable.
pub proof fn lemma_instr_parts_codable(x: Instr)
    requires
        forall|j: int| 0 <= j < instr_parts(x).1.len() ==> field_codable(#[trigger] instr_parts(x).1[j]),
    ensures
        parts_codable(instr_parts(x)),
{
}

/// Reading back the bytes of a codable value, wherever they stand, gives
/// the value and the position just after them.
pub proof fn lemma_value_round_trip(b: Seq<u8>, i: int, v: ValueV)
    requires
        value_codable(v),
        at(b, i, enc_value(v)),
    ensures
        read_value(b, i, (enc_value(v).len() + 1) as nat) == Ok::<(ValueV, int), Seq<char>>((v, i + enc_value(v).len())),
{
    lemma_read_value(b, i, v, (enc_value(v).len() + 1) as nat);
}

/// Reading back the bytes of an instruction whose operands are codable,
/// wherever they stand, gives its view and the position just after them.
pub proof fn lemma_instr_round_trip(b: Seq<u8>, i: int, x: Instr)
    requires
        forall|j: int| 0 <= j < instr_parts(x).1.len() ==> field_codable(#[trigger] instr_parts(x).1[j]),
        at(b, i, enc_instr(x)),
    ensures
        read_instr(b, i, (enc_instr(x).len() + 1) as nat)
            == Ok::<((u8, Seq<FieldV>), int), Seq<char>>((instr_parts(x), i + enc_instr(x).len())),
{
    lemma_instr_parts_codable(x);
    lemma_read_instr(b, i, instr_parts(x), (enc_instr(x).len() + 1) as nat);
}

} // verus!
