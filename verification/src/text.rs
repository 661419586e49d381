//! Text helpers: equality, decimal rendering, concatenation.

use vstd::prelude::*;
use vstd::string::{StrSliceExecFns, StringExecFns};

use crate::ir::consts::{bytes_less, bytes_lt, utf8};

verus! {

/// Decides equality of two byte strings.
pub fn bytes_eq(a: &[u8], b: &[u8]) -> (r: bool)
    ensures
        r == (a@ == b@),
{
    if a.len() != b.len() {
        return false;
    }
    let mut i: usize = 0;
    while i < a.len()
        invariant
            i <= a@.len(),
            a@.len() == b@.len(),
            forall|j: int| 0 <= j < i ==> a@[j] == b@[j],
        decreases a@.len() - i,
    {
        if a[i] != b[i] {
            return false;
        }
        i += 1;
    }
    assert(a@ =~= b@);
    true
}

/// Decides equality of two strings.
pub fn text_eq(a: &str, b: &str) -> (r: bool)
    ensures
        r == (a@ == b@),
{
    let r = bytes_eq(a.as_bytes(), b.as_bytes());
    proof {
        vstd::utf8::encode_utf8_decode_utf8(a@);
        vstd::utf8::encode_utf8_decode_utf8(b@);
    }
    r
}

/// The decimal digits of `n`, most significant first, without sign.
pub open spec fn decimal(n: nat) -> Seq<char>
    decreases n,
{
    if n < 10 {
        seq![digit_char(n)]
    } else {
        decimal(n / 10).push(digit_char(n % 10))
    }
}

/// The digit character for `d < 10`.
pub open spec fn digit_char(d: nat) -> char {
    if d == 0 { '0' } else if d == 1 { '1' } else if d == 2 { '2' } else if d == 3 { '3' }
    else if d == 4 { '4' } else if d == 5 { '5' } else if d == 6 { '6' } else if d == 7 { '7' }
    else if d == 8 { '8' } else { '9' }
}

/// Decimal text is never empty.
pub proof fn lemma_decimal_nonempty(n: nat)
    ensures
        decimal(n).len() >= 1,
        n >= 10 ==> decimal(n).len() >= 2,
    decreases n,
{
    if n >= 10 {
        lemma_decimal_nonempty(n / 10);
    }
}

/// Distinct numbers have distinct decimal texts.
pub proof fn lemma_decimal_injective(a: nat, b: nat)
    requires
        decimal(a) == decimal(b),
    ensures
        a == b,
    decreases a,
{
    lemma_decimal_nonempty(a);
    lemma_decimal_nonempty(b);
    if a >= 10 && b >= 10 {
        let da = decimal(a);
        let db = decimal(b);
        assert(da.drop_last() =~= decimal(a / 10));
        assert(db.drop_last() =~= decimal(b / 10));
        assert(da.last() == digit_char(a % 10));
        assert(db.last() == digit_char(b % 10));
        lemma_decimal_injective(a / 10, b / 10);
    } else if a < 10 && b < 10 {
        assert(decimal(a)[0] == digit_char(a));
        assert(decimal(b)[0] == digit_char(b));
    }
}

/// `prefix + a` and `prefix + b` are equal only if `a` and `b` are.
pub proof fn lemma_prefix_cancel(prefix: Seq<char>, a: Seq<char>, b: Seq<char>)
    requires
        prefix + a == prefix + b,
    ensures
        a == b,
{
    vstd::seq::axiom_seq_add_len(prefix, a);
    vstd::seq::axiom_seq_add_len(prefix, b);
    assert(a.len() == b.len());
    assert forall|i: int| 0 <= i < a.len() implies a[i] == b[i] by {
        assert((prefix + a)[prefix.len() + i] == a[i]);
        assert((prefix + b)[prefix.len() + i] == b[i]);
    }
    assert(a =~= b);
}

/// The decimal text of an integer, with a leading `-` when negative.
pub open spec fn int_text(v: int) -> Seq<char> {
    if v < 0 { seq!['-'] + decimal((-v) as nat) } else { decimal(v as nat) }
}

fn digit_str(d: u128) -> (r: &'static str)
    requires
        d < 10,
    ensures
        r@ == seq![digit_char(d as nat)],
{
    if d == 0 {
        proof { reveal_strlit("0"); }
        "0"
    } else if d == 1 {
        proof { reveal_strlit("1"); }
        "1"
    } else if d == 2 {
        proof { reveal_strlit("2"); }
        "2"
    } else if d == 3 {
        proof { reveal_strlit("3"); }
        "3"
    } else if d == 4 {
        proof { reveal_strlit("4"); }
        "4"
    } else if d == 5 {
        proof { reveal_strlit("5"); }
        "5"
    } else if d == 6 {
        proof { reveal_strlit("6"); }
        "6"
    } else if d == 7 {
        proof { reveal_strlit("7"); }
        "7"
    } else if d == 8 {
        proof { reveal_strlit("8"); }
        "8"
    } else {
        proof { reveal_strlit("9"); }
        "9"
    }
}

/// Appends the decimal digits of `n` to `out`.
pub fn push_decimal(out: &mut String, n: u128)
    ensures
        final(out)@ == old(out)@ + decimal(n as nat),
    decreases n,
{
    if n < 10 {
        out.append(digit_str(n));
    } else {
        push_decimal(out, n / 10);
        out.append(digit_str(n % 10));
    }
}

/// The decimal text of `n`.
pub fn u64_text(n: u64) -> (r: String)
    ensures
        r@ == decimal(n as nat),
{
    let mut s = String::new();
    push_decimal(&mut s, n as u128);
    assert(s@ =~= decimal(n as nat));
    s
}

/// The decimal text of `n`.
pub fn usize_text(n: usize) -> (r: String)
    ensures
        r@ == decimal(n as nat),
{
    u64_text(n as u64)
}

/// The decimal text of `v`, with a leading `-` when negative.
pub fn i64_text(v: i64) -> (r: String)
    ensures
        r@ == int_text(v as int),
{
    if v < 0 {
        let mut s = String::from_str("-");
        proof { reveal_strlit("-"); }
        let magnitude: u64 = if v == i64::MIN { 0x8000_0000_0000_0000u64 } else { (-v) as u64 };
        push_decimal(&mut s, magnitude as u128);
        s
    } else {
        u64_text(v as u64)
    }
}

/// The decimal text of `n`.
pub fn u128_text(n: u128) -> (r: String)
    ensures
        r@ == decimal(n as nat),
{
    let mut s = String::new();
    push_decimal(&mut s, n);
    assert(s@ =~= decimal(n as nat));
    s
}

/// How a character of a symbol name is written inside a quoted LLVM symbol.
pub open spec fn symbol_char_escape(c: char) -> Seq<char> {
    if c == '\\' {
        "\\5C"@
    } else if c == '"' {
        "\\22"@
    } else {
        seq![c]
    }
}

/// A symbol name with each backslash written `\5C` and each double quote `\22`.
pub open spec fn symbol_escape(s: Seq<char>) -> Seq<char>
    decreases s.len(),
{
    if s.len() == 0 {
        seq![]
    } else {
        symbol_escape(s.drop_last()) + symbol_char_escape(s.last())
    }
}

/// Escapes a symbol name for use between the quotes of an LLVM symbol.
pub fn escape_symbol(name: &str) -> (r: String)
    ensures
        r@ == symbol_escape(name@),
{
    let n = name.unicode_len();
    let mut out = String::new();
    let mut i: usize = 0;
    while i < n
        invariant
            i <= n,
            n == name@.len(),
            out@ == symbol_escape(name@.take(i as int)),
        decreases n - i,
    {
        let c = name.get_char(i);
        if c == '\\' {
            out.append("\\5C");
        } else if c == '"' {
            out.append("\\22");
        } else {
            let one = name.substring_char(i, i + 1);
            assert(one@ =~= seq![c]);
            out.append(one);
        }
        assert(name@.take(i + 1).drop_last() =~= name@.take(i as int));
        i += 1;
    }
    assert(name@.take(n as int) =~= name@);
    out
}

/// `bytes_less` is transitive.
pub proof fn lemma_bytes_less_transitive(a: Seq<u8>, b: Seq<u8>, c: Seq<u8>)
    requires
        bytes_less(a, b),
        bytes_less(b, c),
    ensures
        bytes_less(a, c),
    decreases a.len(),
{
    if a.len() > 0 && a[0] == b[0] && b[0] == c[0] {
        lemma_bytes_less_transitive(a.drop_first(), b.drop_first(), c.drop_first());
    }
}

/// No byte string is below itself.
pub proof fn lemma_bytes_less_irreflexive(a: Seq<u8>)
    ensures
        !bytes_less(a, a),
    decreases a.len(),
{
    if a.len() > 0 {
        lemma_bytes_less_irreflexive(a.drop_first());
    }
}

/// Position `v` occurs in `s`.
pub open spec fn lists(s: Seq<usize>, v: int) -> bool {
    exists|t: int| 0 <= t < s.len() && #[trigger] s[t] as int == v
}

/// The sort key of the `i`th text: its UTF-8 bytes.
pub open spec fn text_key(keys: Seq<String>, i: int) -> Seq<u8> {
    utf8(keys[i]@)
}

/// `order` holds the positions `0..n` of `keys`, each once, in the order of
/// the texts (bytewise on their UTF-8 form, as Rust orders strings).
pub open spec fn is_sorted_order(order: Seq<usize>, keys: Seq<String>) -> bool {
    &&& order.len() == keys.len()
    &&& forall|t: int| 0 <= t < order.len() ==> (#[trigger] order[t]) < keys.len()
    &&& forall|v: int| 0 <= v < keys.len() ==> #[trigger] lists(order, v)
    &&& forall|t: int, u: int| 0 <= t < u < order.len() ==> !bytes_less(text_key(keys, #[trigger] order[u] as int), text_key(keys, #[trigger] order[t] as int))
}

/// The positions `0..n` of `keys`, each once, in the order of the texts
/// (bytewise on their UTF-8 form, as Rust orders strings).
pub fn sorted_positions(keys: &Vec<String>) -> (order: Vec<usize>)
    ensures
        is_sorted_order(order@, keys@),
        order@.len() == keys@.len(),
        forall|t: int| 0 <= t < order@.len() ==> (#[trigger] order@[t]) < keys@.len(),
        forall|v: int| 0 <= v < keys@.len() ==> #[trigger] lists(order@, v),
        forall|t: int, u: int| 0 <= t < u < order@.len() ==> !bytes_less(text_key(keys@, #[trigger] order@[u] as int), text_key(keys@, #[trigger] order@[t] as int)),
{
    let mut order: Vec<usize> = Vec::new();
    let mut i: usize = 0;
    while i < keys.len()
        invariant
            i <= keys@.len(),
            order@.len() == i,
            forall|t: int| 0 <= t < order@.len() ==> (#[trigger] order@[t]) < i,
            forall|v: int| 0 <= v < i ==> #[trigger] lists(order@, v),
            forall|t: int, u: int| 0 <= t < u < order@.len() ==> !bytes_less(text_key(keys@, #[trigger] order@[u] as int), text_key(keys@, #[trigger] order@[t] as int)),
        decreases keys@.len() - i,
    {
        let key = keys[i].as_str().as_bytes();
        let mut p: usize = 0;
        while p < order.len() && !bytes_lt(key, keys[order[p]].as_str().as_bytes())
            invariant
                i < keys@.len(),
                key@ == text_key(keys@, i as int),
                p <= order@.len(),
                forall|t: int| 0 <= t < order@.len() ==> (#[trigger] order@[t]) < i,
                forall|t: int| 0 <= t < p ==> !bytes_less(key@, text_key(keys@, #[trigger] order@[t] as int)),
                order@.len() == i,
                forall|v: int| 0 <= v < i ==> #[trigger] lists(order@, v),
                forall|t: int, u: int| 0 <= t < u < order@.len() ==> !bytes_less(text_key(keys@, #[trigger] order@[u] as int), text_key(keys@, #[trigger] order@[t] as int)),
            decreases order@.len() - p,
        {
            p += 1;
        }
        let ghost before = order@;
        order.insert(p, i);
        proof {
            assert forall|t: int, u: int| 0 <= t < u < order@.len() implies !bytes_less(text_key(keys@, #[trigger] order@[u] as int), text_key(keys@, #[trigger] order@[t] as int)) by {
                if u == p as int {
                    assert(order@[t] == before[t]);
                    assert(order@[u] as int == i);
                } else if t == p as int {
                    assert(order@[t] as int == i);
                    assert(order@[u] == before[u - 1]);
                    let x = text_key(keys@, before[u - 1] as int);
                    let y = text_key(keys@, before[p as int] as int);
                    assert(bytes_less(key@, y));
                    if bytes_less(x, key@) {
                        lemma_bytes_less_transitive(x, key@, y);
                        if u - 1 > p {
                            assert(!bytes_less(x, y));
                        } else {
                            lemma_bytes_less_irreflexive(x);
                        }
                    }
                } else if t < p && u > p {
                    assert(order@[t] == before[t]);
                    assert(order@[u] == before[u - 1]);
                } else if u < p {
                    assert(order@[t] == before[t]);
                    assert(order@[u] == before[u]);
                } else {
                    assert(order@[t] == before[t - 1]);
                    assert(order@[u] == before[u - 1]);
                }
            }
            assert forall|v: int| 0 <= v < i + 1 implies #[trigger] lists(order@, v) by {
                if v == i as int {
                    assert(order@[p as int] as int == v);
                } else {
                    assert(lists(before, v));
                    let t = choose|t: int| 0 <= t < before.len() && #[trigger] before[t] as int == v;
                    if t < p {
                        assert(order@[t] as int == v);
                    } else {
                        assert(order@[t + 1] as int == v);
                    }
                }
            }
        }
        i += 1;
    }
    order
}


} // verus!
