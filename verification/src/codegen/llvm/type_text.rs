//! How types are written in messages, as Rust's derived `Debug` writes them.

use vstd::prelude::*;
use vstd::string::{StrSliceExecFns, StringExecFns};

use crate::ir::{same_type, IrType};
use crate::text::{decimal, usize_text};

verus! {

broadcast use vstd::std_specs::vec::group_vec_axioms;

/// The lowercase hexadecimal digits of `n`, most significant first.
pub open spec fn hex(n: nat) -> Seq<char>
    decreases n,
{
    if n < 16 {
        seq![hex_digit(n)]
    } else {
        hex(n / 16).push(hex_digit(n % 16))
    }
}

/// The lowercase hexadecimal digit for `d < 16`.
pub open spec fn hex_digit(d: nat) -> char {
    if d < 10 {
        crate::text::digit_char(d)
    } else if d == 10 { 'a' } else if d == 11 { 'b' } else if d == 12 { 'c' } else if d == 13 { 'd' } else if d == 14 { 'e' } else { 'f' }
}

/// How a character stands inside a quoted string in debug text: quote,
/// backslash, tab, carriage return, newline and NUL by their escapes, other
/// control characters as `\u{..}` with their code in hexadecimal, and any
/// other character as itself.
pub open spec fn char_debug(c: char) -> Seq<char> {
    if c == '"' {
        seq!['\\', '"']
    } else if c == '\\' {
        seq!['\\', '\\']
    } else if c == '\t' {
        seq!['\\', 't']
    } else if c == '\r' {
        seq!['\\', 'r']
    } else if c == '\n' {
        seq!['\\', 'n']
    } else if c == '\0' {
        seq!['\\', '0']
    } else if (c as u32) < 0x20 || c as u32 == 0x7f {
        seq!['\\', 'u', '{'] + hex(c as u32 as nat) + seq!['}']
    } else {
        seq![c]
    }
}

/// The characters of `s` in debug text, without the quotes.
pub open spec fn chars_debug(s: Seq<char>) -> Seq<char>
    decreases s.len(),
{
    if s.len() == 0 {
        seq![]
    } else {
        chars_debug(s.drop_last()) + char_debug(s.last())
    }
}

/// The debug text of a type: a variant's name, with its fields.
pub open spec fn type_debug(t: IrType) -> Seq<char>
    decreases t,
{
    match t {
        IrType::Int => "Int"@,
        IrType::Float => "Float"@,
        IrType::Bool => "Bool"@,
        IrType::String => "String"@,
        IrType::Void => "Void"@,
        IrType::Unknown => "Unknown"@,
        IrType::Named(n) => "Named(\""@ + chars_debug(n@) + "\")"@,
        IrType::Array { elem, size } => "Array { elem: "@ + type_debug(*elem) + ", size: "@ + decimal(size as nat) + " }"@,
        IrType::Vec { elem } => "Vec { elem: "@ + type_debug(*elem) + " }"@,
        IrType::Fn { params, ret } => {
            proof {
                assert(decreases_to!(params => params@));
            }
            "Fn { params: ["@ + types_debug(params@) + "], ret: "@ + type_debug(*ret) + " }"@
        },
    }
}

/// The debug texts of `types`, separated by `, `.
pub open spec fn types_debug(types: Seq<IrType>) -> Seq<char>
    decreases types,
{
    if types.len() == 0 {
        seq![]
    } else {
        let init = types.subrange(0, types.len() - 1);
        if types.len() == 1 {
            type_debug(types[0])
        } else {
            types_debug(init) + ", "@ + type_debug(types[types.len() - 1])
        }
    }
}

/// Texts separated by `, `.
pub open spec fn list_debug(items: Seq<Seq<char>>) -> Seq<char>
    decreases items.len(),
{
    if items.len() == 0 {
        seq![]
    } else if items.len() == 1 {
        items[0]
    } else {
        list_debug(items.drop_last()) + ", "@ + items.last()
    }
}

fn hex_digit_str(d: u32) -> (r: &'static str)
    requires
        d < 16,
    ensures
        r@ == seq![hex_digit(d as nat)],
{
    proof {
        reveal_strlit("0"); reveal_strlit("1"); reveal_strlit("2"); reveal_strlit("3");
        reveal_strlit("4"); reveal_strlit("5"); reveal_strlit("6"); reveal_strlit("7");
        reveal_strlit("8"); reveal_strlit("9"); reveal_strlit("a"); reveal_strlit("b");
        reveal_strlit("c"); reveal_strlit("d"); reveal_strlit("e"); reveal_strlit("f");
    }
    if d == 0 { "0" } else if d == 1 { "1" } else if d == 2 { "2" } else if d == 3 { "3" }
    else if d == 4 { "4" } else if d == 5 { "5" } else if d == 6 { "6" } else if d == 7 { "7" }
    else if d == 8 { "8" } else if d == 9 { "9" } else if d == 10 { "a" } else if d == 11 { "b" }
    else if d == 12 { "c" } else if d == 13 { "d" } else if d == 14 { "e" } else { "f" }
}

fn push_hex(out: &mut String, n: u32)
    ensures
        final(out)@ == old(out)@ + hex(n as nat),
    decreases n,
{
    if n < 16 {
        out.append(hex_digit_str(n));
    } else {
        push_hex(out, n / 16);
        out.append(hex_digit_str(n % 16));
    }
}

fn push_char_debug(out: &mut String, s: &str, i: usize)
    requires
        i < s@.len(),
        s@.len() <= usize::MAX,
    ensures
        final(out)@ == old(out)@ + char_debug(s@[i as int]),
{
    let c = s.get_char(i);
    proof {
        reveal_strlit("\\\""); reveal_strlit("\\\\"); reveal_strlit("\\t"); reveal_strlit("\\r");
        reveal_strlit("\\n"); reveal_strlit("\\0"); reveal_strlit("\\u{"); reveal_strlit("}");
    }
    if c == '"' {
        out.append("\\\"");
    } else if c == '\\' {
        out.append("\\\\");
    } else if c == '\t' {
        out.append("\\t");
    } else if c == '\r' {
        out.append("\\r");
    } else if c == '\n' {
        out.append("\\n");
    } else if c == '\0' {
        out.append("\\0");
    } else if (c as u32) < 0x20 || c as u32 == 0x7f {
        let ghost before = out@;
        out.append("\\u{");
        push_hex(out, c as u32);
        out.append("}");
        assert(out@ =~= before + char_debug(c));
    } else {
        let one = s.substring_char(i, i + 1);
        assert(one@ =~= seq![c]);
        out.append(one);
    }
}

/// The debug text of a type (see `type_debug`).
#[verifier::loop_isolation(false)]
pub fn type_debug_text(t: &IrType) -> (r: String)
    ensures
        r@ == type_debug(*t),
    decreases t,
{
    match t {
        IrType::Int => String::from_str("Int"),
        IrType::Float => String::from_str("Float"),
        IrType::Bool => String::from_str("Bool"),
        IrType::String => String::from_str("String"),
        IrType::Void => String::from_str("Void"),
        IrType::Unknown => String::from_str("Unknown"),
        IrType::Named(n) => {
            let len = n.as_str().unicode_len();
            let mut body = String::new();
            let mut i: usize = 0;
            while i < len
                invariant
                    i <= len,
                    len == n@.len(),
                    body@ == chars_debug(n@.take(i as int)),
                decreases len - i,
            {
                push_char_debug(&mut body, n.as_str(), i);
                assert(n@.take(i + 1).drop_last() =~= n@.take(i as int));
                i += 1;
            }
            assert(n@.take(len as int) =~= n@);
            let mut out = String::from_str("Named(\"");
            out.append(body.as_str());
            out.append("\")");
            out
        },
        IrType::Array { elem, size } => {
            let mut out = String::from_str("Array { elem: ");
            out.append(type_debug_text(elem).as_str());
            out.append(", size: ");
            out.append(usize_text(*size).as_str());
            out.append(" }");
            out
        },
        IrType::Vec { elem } => {
            let mut out = String::from_str("Vec { elem: ");
            out.append(type_debug_text(elem).as_str());
            out.append(" }");
            out
        },
        IrType::Fn { params, ret } => {
            let mut list = String::new();
            let mut i: usize = 0;
            while i < params.len()
                invariant
                    i <= params@.len(),
                    list@ == types_debug(params@.take(i as int)),
                decreases params@.len() - i,
            {
                proof {
                    assert(decreases_to!(*params => params@));
                    assert(decreases_to!(*t => params@[i as int]));
                    assert(params@.take(i + 1).subrange(0, i as int) =~= params@.take(i as int));
                }
                let item = type_debug_text(&params[i]);
                if i == 0 {
                    list = item;
                } else {
                    list.append(", ");
                    list.append(item.as_str());
                }
                i += 1;
            }
            assert(params@.take(i as int) =~= params@);
            let mut out = String::from_str("Fn { params: [");
            out.append(list.as_str());
            out.append("], ret: ");
            out.append(type_debug_text(ret).as_str());
            out.append(" }");
            out
        },
    }
}

/// Types that are the same type have the same debug text.
pub proof fn lemma_same_type_debug(a: IrType, b: IrType)
    requires
        same_type(a, b),
    ensures
        type_debug(a) == type_debug(b),
    decreases a,
{
    match (a, b) {
        (IrType::Array { elem: e1, .. }, IrType::Array { elem: e2, .. }) => {
            lemma_same_type_debug(*e1, *e2);
        },
        (IrType::Vec { elem: e1 }, IrType::Vec { elem: e2 }) => {
            lemma_same_type_debug(*e1, *e2);
        },
        (IrType::Fn { params: p1, ret: r1 }, IrType::Fn { params: p2, ret: r2 }) => {
            assert(decreases_to!(p1 => p1@));
            lemma_same_types_debug(p1@, p2@);
            lemma_same_type_debug(*r1, *r2);
        },
        _ => {},
    }
}

/// Lists of pairwise the same types have the same debug text.
pub proof fn lemma_same_types_debug(a: Seq<IrType>, b: Seq<IrType>)
    requires
        a.len() == b.len(),
        forall|i: int| 0 <= i < a.len() ==> same_type(#[trigger] a[i], b[i]),
    ensures
        types_debug(a) == types_debug(b),
    decreases a,
{
    if a.len() > 0 {
        lemma_same_type_debug(a[a.len() - 1], b[b.len() - 1]);
        if a.len() > 1 {
            lemma_same_types_debug(a.subrange(0, a.len() - 1), b.subrange(0, b.len() - 1));
        }
    }
}

} // verus!
