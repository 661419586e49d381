//! Evaluation of IR operators on constants.

use vstd::prelude::*;
use vstd::string::StringExecFns;

use crate::ir::{BinaryOp, CmpOp, ConstValue, LogicOp, UnaryOp};

verus! {

/// The value a constant denotes, with strings taken by their text.
pub enum ConstV {
    Int(i64),
    Float(u64),
    Bool(bool),
    String(Seq<char>),
    Unit,
}

/// The value of a constant.
pub open spec fn cview(c: ConstValue) -> ConstV {
    match c {
        ConstValue::Int(v) => ConstV::Int(v),
        ConstValue::Float(v) => ConstV::Float(v),
        ConstValue::Bool(v) => ConstV::Bool(v),
        ConstValue::String(s) => ConstV::String(s@),
        ConstValue::Unit => ConstV::Unit,
    }
}

/// The sign bit of a binary64 encoding.
pub open spec fn float_sign(bits: u64) -> int {
    bits as int / 0x8000_0000_0000_0000
}

/// The encoding without its sign bit.
pub open spec fn float_magnitude(bits: u64) -> int {
    bits as int % 0x8000_0000_0000_0000
}

/// The encoding is a NaN: all exponent bits set and a nonzero fraction.
pub open spec fn float_is_nan(bits: u64) -> bool {
    float_magnitude(bits) > 0x7FF0_0000_0000_0000
}

/// For a non-NaN encoding, an integer that orders as the value does
/// (both zeros map to 0).
pub open spec fn float_key(bits: u64) -> int {
    if float_sign(bits) == 1 { -float_magnitude(bits) } else { float_magnitude(bits) }
}

/// IEEE-754 comparison of two binary64 values given by their encodings:
/// any comparison with a NaN is false, but `!=`, which is true.
pub open spec fn float_compare(op: CmpOp, a: u64, b: u64) -> bool {
    if float_is_nan(a) || float_is_nan(b) {
        op == CmpOp::Ne
    } else {
        let x = float_key(a);
        let y = float_key(b);
        match op {
            CmpOp::Eq => x == y,
            CmpOp::Ne => x != y,
            CmpOp::Lt => x < y,
            CmpOp::Le => x <= y,
            CmpOp::Gt => x > y,
            CmpOp::Ge => x >= y,
        }
    }
}

/// Integer comparison.
pub open spec fn int_compare(op: CmpOp, a: int, b: int) -> bool {
    match op {
        CmpOp::Eq => a == b,
        CmpOp::Ne => a != b,
        CmpOp::Lt => a < b,
        CmpOp::Le => a <= b,
        CmpOp::Gt => a > b,
        CmpOp::Ge => a >= b,
    }
}

/// Lexicographic order on byte strings: `a` is a proper prefix of `b`, or the
/// first differing byte of `a` is smaller.
pub open spec fn bytes_less(a: Seq<u8>, b: Seq<u8>) -> bool
    decreases a.len(),
{
    if b.len() == 0 {
        false
    } else if a.len() == 0 {
        true
    } else if a[0] != b[0] {
        a[0] < b[0]
    } else {
        bytes_less(a.drop_first(), b.drop_first())
    }
}

/// The UTF-8 bytes of a string.
pub open spec fn utf8(s: Seq<char>) -> Seq<u8> {
    vstd::utf8::encode_utf8(s)
}

/// String comparison in Rust's order (bytewise on the UTF-8 encoding).
pub open spec fn string_compare(op: CmpOp, a: Seq<char>, b: Seq<char>) -> bool {
    match op {
        CmpOp::Eq => a == b,
        CmpOp::Ne => a != b,
        CmpOp::Lt => bytes_less(utf8(a), utf8(b)),
        CmpOp::Le => bytes_less(utf8(a), utf8(b)) || a == b,
        CmpOp::Gt => bytes_less(utf8(b), utf8(a)),
        CmpOp::Ge => bytes_less(utf8(b), utf8(a)) || a == b,
    }
}

/// Decides `bytes_less`.
pub fn bytes_lt(a: &[u8], b: &[u8]) -> (r: bool)
    ensures
        r == bytes_less(a@, b@),
{
    let mut i: usize = 0;
    assert(a@.skip(0) =~= a@);
    assert(b@.skip(0) =~= b@);
    while i < a.len() && i < b.len()
        invariant
            i <= a@.len(),
            i <= b@.len(),
            bytes_less(a@, b@) == bytes_less(a@.skip(i as int), b@.skip(i as int)),
        decreases a@.len() - i,
    {
        if a[i] != b[i] {
            return a[i] < b[i];
        }
        proof {
            assert(a@.skip(i as int).drop_first() =~= a@.skip(i + 1));
            assert(b@.skip(i as int).drop_first() =~= b@.skip(i + 1));
        }
        i += 1;
    }
    i < b.len()
}

/// The bit that distinguishes `-x` from `x` in a binary64 encoding.
pub const FLOAT_SIGN_BIT: u64 = 0x8000_0000_0000_0000;

/// Negation of an encoded binary64 value flips its sign bit.
pub open spec fn float_negate(bits: u64) -> u64 {
    if bits >= FLOAT_SIGN_BIT { (bits - FLOAT_SIGN_BIT) as u64 } else { (bits + FLOAT_SIGN_BIT) as u64 }
}

/// The constant that a unary operator gives on a constant, where it folds.
/// `-i64::MIN` does not fold.
pub open spec fn spec_eval_unary(op: UnaryOp, value: ConstV) -> Option<ConstV> {
    match (op, value) {
        (UnaryOp::Neg, ConstV::Int(v)) => if v == i64::MIN { None } else { Some(ConstV::Int((-v) as i64)) },
        (UnaryOp::Neg, ConstV::Float(v)) => Some(ConstV::Float(float_negate(v))),
        (UnaryOp::Not, ConstV::Bool(v)) => Some(ConstV::Bool(!v)),
        _ => None,
    }
}

/// Folds a unary operator on a constant.
pub fn eval_unary(op: UnaryOp, value: &ConstValue) -> (r: Option<ConstValue>)
    ensures
        spec_eval_unary(op, cview(*value)) == match r { Some(c) => Some(cview(c)), None => None },
{
    match (op, value) {
        (UnaryOp::Neg, ConstValue::Int(v)) => {
            if *v == i64::MIN {
                None
            } else {
                Some(ConstValue::Int(-*v))
            }
        },
        (UnaryOp::Neg, ConstValue::Float(v)) => {
            if *v >= FLOAT_SIGN_BIT {
                Some(ConstValue::Float(*v - FLOAT_SIGN_BIT))
            } else {
                Some(ConstValue::Float(*v + FLOAT_SIGN_BIT))
            }
        },
        (UnaryOp::Not, ConstValue::Bool(v)) => Some(ConstValue::Bool(!*v)),
        _ => None,
    }
}

/// Rust's `/` on integers: truncates towards zero.
pub open spec fn trunc_div(a: int, b: int) -> int {
    if a == 0 {
        0
    } else if a > 0 && b > 0 {
        a / b
    } else if a < 0 && b < 0 {
        (-a) / (-b)
    } else if a < 0 {
        -((-a) / b)
    } else {
        -(a / (-b))
    }
}

/// Rust's `%` on integers: the remainder takes the sign of the dividend.
pub open spec fn trunc_rem(a: int, b: int) -> int {
    if a == 0 {
        0
    } else if a > 0 && b > 0 {
        a % b
    } else if a < 0 && b < 0 {
        -((-a) % (-b))
    } else if a < 0 {
        -((-a) % b)
    } else {
        a % (-b)
    }
}

/// Whether an integer is in the range of `i64`.
pub open spec fn fits_i64(v: int) -> bool {
    i64::MIN <= v <= i64::MAX
}

/// The integer result of an arithmetic operator, where it fits in `i64` and
/// the divisor is nonzero.
pub open spec fn int_arith(op: BinaryOp, a: int, b: int) -> Option<int> {
    let v = match op {
        BinaryOp::Add => a + b,
        BinaryOp::Sub => a - b,
        BinaryOp::Mul => a * b,
        BinaryOp::Div => trunc_div(a, b),
        BinaryOp::Mod => trunc_rem(a, b),
    };
    if (op == BinaryOp::Div || op == BinaryOp::Mod) && b == 0 {
        None
    } else if op == BinaryOp::Mod && a == i64::MIN && b == -1 {
        None
    } else if fits_i64(v) {
        Some(v)
    } else {
        None
    }
}

/// The constant that an arithmetic operator gives on two constants, where it
/// folds: integer arithmetic that stays in range with a nonzero divisor, and
/// string concatenation. Float arithmetic is not folded.
pub open spec fn spec_eval_binary(op: BinaryOp, left: ConstV, right: ConstV) -> Option<ConstV> {
    match (left, right) {
        (ConstV::Int(a), ConstV::Int(b)) => match int_arith(op, a as int, b as int) {
            Some(v) => Some(ConstV::Int(v as i64)),
            None => None,
        },
        (ConstV::String(a), ConstV::String(b)) => if op == BinaryOp::Add {
            Some(ConstV::String(a + b))
        } else {
            None
        },
        _ => None,
    }
}

/// Folds an arithmetic operator on two constants.
pub fn eval_binary(op: BinaryOp, left: &ConstValue, right: &ConstValue) -> (r: Option<ConstValue>)
    ensures
        spec_eval_binary(op, cview(*left), cview(*right)) == match r { Some(c) => Some(cview(c)), None => None },
{
    match (left, right) {
        (ConstValue::Int(a), ConstValue::Int(b)) => {
            let v = match op {
                BinaryOp::Add => a.checked_add(*b),
                BinaryOp::Sub => a.checked_sub(*b),
                BinaryOp::Mul => a.checked_mul(*b),
                BinaryOp::Div => a.checked_div(*b),
                BinaryOp::Mod => a.checked_rem(*b),
            };
            match v {
                Some(v) => Some(ConstValue::Int(v)),
                None => None,
            }
        },
        (ConstValue::String(a), ConstValue::String(b)) => {
            if op == BinaryOp::Add {
                Some(ConstValue::String(a.clone().concat(b.as_str())))
            } else {
                None
            }
        },
        _ => None,
    }
}

/// The truth value of a comparison of two constants, where it is decided:
/// integers, floats (IEEE order), strings (Rust's order) in all six ways,
/// booleans by `==` and `!=` only.
pub open spec fn spec_eval_compare(op: CmpOp, left: ConstV, right: ConstV) -> Option<bool> {
    match (left, right) {
        (ConstV::Int(a), ConstV::Int(b)) => Some(int_compare(op, a as int, b as int)),
        (ConstV::Float(a), ConstV::Float(b)) => Some(float_compare(op, a, b)),
        (ConstV::Bool(a), ConstV::Bool(b)) => match op {
            CmpOp::Eq => Some(a == b),
            CmpOp::Ne => Some(a != b),
            _ => None,
        },
        (ConstV::String(a), ConstV::String(b)) => Some(string_compare(op, a, b)),
        _ => None,
    }
}

fn float_key_parts(bits: u64) -> (r: (bool, u64))
    ensures
        r.0 == float_is_nan(bits),
        !r.0 ==> (if float_sign(bits) == 1 { -(r.1 as int) } else { r.1 as int }) == float_key(bits),
        r.1 as int == float_magnitude(bits),
{
    let magnitude = bits % 0x8000_0000_0000_0000;
    (magnitude > 0x7FF0_0000_0000_0000, magnitude)
}

fn eval_float_compare(op: CmpOp, a: u64, b: u64) -> (r: bool)
    ensures
        r == float_compare(op, a, b),
{
    let (a_nan, a_mag) = float_key_parts(a);
    let (b_nan, b_mag) = float_key_parts(b);
    if a_nan || b_nan {
        return op == CmpOp::Ne;
    }
    let a_neg = a >= 0x8000_0000_0000_0000;
    let b_neg = b >= 0x8000_0000_0000_0000;
    // Compare the keys -mag (negative sign) or mag (positive sign) without leaving u64.
    let less = if a_neg && b_neg {
        a_mag > b_mag
    } else if a_neg {
        !(a_mag == 0 && b_mag == 0)
    } else if b_neg {
        false
    } else {
        a_mag < b_mag
    };
    let equal = if a_neg == b_neg {
        a_mag == b_mag
    } else {
        a_mag == 0 && b_mag == 0
    };
    match op {
        CmpOp::Eq => equal,
        CmpOp::Ne => !equal,
        CmpOp::Lt => less,
        CmpOp::Le => less || equal,
        CmpOp::Gt => !less && !equal,
        CmpOp::Ge => !less,
    }
}

/// Decides a comparison of two constants where `spec_eval_compare` decides it.
pub fn eval_compare(op: CmpOp, left: &ConstValue, right: &ConstValue) -> (r: Option<bool>)
    ensures
        r == spec_eval_compare(op, cview(*left), cview(*right)),
{
    match (left, right) {
        (ConstValue::Int(a), ConstValue::Int(b)) => Some(match op {
            CmpOp::Eq => *a == *b,
            CmpOp::Ne => *a != *b,
            CmpOp::Lt => *a < *b,
            CmpOp::Le => *a <= *b,
            CmpOp::Gt => *a > *b,
            CmpOp::Ge => *a >= *b,
        }),
        (ConstValue::Float(a), ConstValue::Float(b)) => Some(eval_float_compare(op, *a, *b)),
        (ConstValue::Bool(a), ConstValue::Bool(b)) => match op {
            CmpOp::Eq => Some(*a == *b),
            CmpOp::Ne => Some(*a != *b),
            _ => None,
        },
        (ConstValue::String(a), ConstValue::String(b)) => {
            let ab = a.as_str().as_bytes();
            let bb = b.as_str().as_bytes();
            Some(match op {
                CmpOp::Eq => *a == *b,
                CmpOp::Ne => *a != *b,
                CmpOp::Lt => bytes_lt(ab, bb),
                CmpOp::Le => bytes_lt(ab, bb) || *a == *b,
                CmpOp::Gt => bytes_lt(bb, ab),
                CmpOp::Ge => bytes_lt(bb, ab) || *a == *b,
            })
        },
        _ => None,
    }
}

/// The truth value of a boolean connective on two boolean constants.
pub open spec fn spec_eval_logic(op: LogicOp, left: ConstV, right: ConstV) -> Option<bool> {
    match (op, left, right) {
        (LogicOp::And, ConstV::Bool(a), ConstV::Bool(b)) => Some(a && b),
        (LogicOp::Or, ConstV::Bool(a), ConstV::Bool(b)) => Some(a || b),
        _ => None,
    }
}

/// Decides a boolean connective on two boolean constants.
pub fn eval_logic(op: LogicOp, left: &ConstValue, right: &ConstValue) -> (r: Option<bool>)
    ensures
        r == spec_eval_logic(op, cview(*left), cview(*right)),
{
    match (op, left, right) {
        (LogicOp::And, ConstValue::Bool(a), ConstValue::Bool(b)) => Some(*a && *b),
        (LogicOp::Or, ConstValue::Bool(a), ConstValue::Bool(b)) => Some(*a || *b),
        _ => None,
    }
}

} // verus!
