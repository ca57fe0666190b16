//! Numbers are IEEE-754 binary64 values held as their 64-bit encoding.
//!
//! The library decides everything it needs to know about a value (is it zero,
//! one, negative, an integer) from the encoding. Computing with values, reading
//! a literal and printing a value are done by functions that the caller hands in;
//! the contracts hold for any such functions that are deterministic.
use vstd::arithmetic::power2::{
    lemma2_to64, lemma2_to64_rest, lemma_pow2_pos, lemma_pow2_strictly_increases, lemma_pow2_unfold, pow2,
};
use vstd::prelude::*;

verus! {

/// Encoding of `0.0`.
pub const ZERO_BITS: u64 = 0;

/// Encoding of `1.0`.
pub const ONE_BITS: u64 = 0x3FF0_0000_0000_0000;

/// Encoding of `-0.0`: the sign bit alone.
pub const NEG_ZERO_BITS: u64 = 0x8000_0000_0000_0000;

/// Encoding of negative infinity.
pub const NEG_INF_BITS: u64 = 0xFFF0_0000_0000_0000;

/// A numeric operation that the caller's arithmetic performs.
/// `Sqrt` takes its operand as the first argument and ignores the second.
#[derive(PartialEq, Eq, Structural, Clone, Copy, Debug)]
pub enum NumOp {
    Add,
    Sub,
    Mul,
    Div,
    Pow,
    Sqrt,
}

/// The value compares equal to zero (`0.0` or `-0.0`).
pub open spec fn is_zero_bits(b: u64) -> bool {
    b == ZERO_BITS || b == NEG_ZERO_BITS
}

/// The value is exactly one.
pub open spec fn is_one_bits(b: u64) -> bool {
    b == ONE_BITS
}

/// The value compares less than zero: the sign is set and it is neither `-0.0` nor a NaN.
pub open spec fn is_negative_bits(b: u64) -> bool {
    NEG_ZERO_BITS < b <= NEG_INF_BITS
}

/// Biased exponent field.
pub open spec fn exponent_field(b: u64) -> int {
    ((b / 0x10_0000_0000_0000) % 0x800) as int
}

/// Fraction (mantissa) field.
pub open spec fn fraction_field(b: u64) -> int {
    (b % 0x10_0000_0000_0000) as int
}

/// The value's fractional part `x - trunc(x)` is not zero. For infinities and
/// NaNs that part is NaN, which is not zero either.
pub open spec fn has_fraction_bits(b: u64) -> bool {
    let e = exponent_field(b);
    let m = fraction_field(b);
    if e == 0x7FF {
        true
    } else if e < 1023 {
        e != 0 || m != 0
    } else if e >= 1075 {
        false
    } else {
        m % (pow2((1075 - e) as nat) as int) != 0
    }
}

pub fn bits_are_zero(b: u64) -> (r: bool)
    ensures
        r == is_zero_bits(b),
{
    b == ZERO_BITS || b == NEG_ZERO_BITS
}

pub fn bits_are_one(b: u64) -> (r: bool)
    ensures
        r == is_one_bits(b),
{
    b == ONE_BITS
}

pub fn bits_are_negative(b: u64) -> (r: bool)
    ensures
        r == is_negative_bits(b),
{
    NEG_ZERO_BITS < b && b <= NEG_INF_BITS
}

pub fn bits_have_fraction(b: u64) -> (r: bool)
    ensures
        r == has_fraction_bits(b),
{
    let e: u64 = (b / 0x10_0000_0000_0000) % 0x800;
    let m: u64 = b % 0x10_0000_0000_0000;
    if e == 0x7FF {
        true
    } else if e < 1023 {
        e != 0 || m != 0
    } else if e >= 1075 {
        false
    } else {
        let k: u64 = 1075 - e;
        let mut d: u64 = 1;
        let mut i: u64 = 0;
        proof {
            lemma2_to64();
        }
        while i < k
            invariant
                i <= k <= 52,
                d == pow2(i as nat),
                d <= 0x10_0000_0000_0000,
            decreases k - i,
        {
            proof {
                lemma_pow2_unfold((i + 1) as nat);
            }
            proof {
                lemma_pow2_bound((i + 1) as nat);
            }
            d = d * 2;
            i = i + 1;
        }
        proof {
            lemma_pow2_bound(k as nat);
        }
        m % d != 0
    }
}

proof fn lemma_pow2_bound(n: nat)
    requires
        n <= 52,
    ensures
        0 < pow2(n) <= 0x10_0000_0000_0000,
{
    lemma2_to64_rest();
    lemma_pow2_pos(n);
    if n < 52 {
        lemma_pow2_strictly_increases(n, 52);
    }
}

// ---- the caller's numeric functions ----

/// `a` can be called on every operation and operands, and gives one result for each.
pub open spec fn arith_ok<A: Fn(NumOp, u64, u64) -> u64>(a: A) -> bool {
    &&& forall|op: NumOp, x: u64, y: u64| #[trigger] a.requires((op, x, y))
    &&& forall|op: NumOp, x: u64, y: u64, r1: u64, r2: u64|
        #[trigger] a.ensures((op, x, y), r1) && #[trigger] a.ensures((op, x, y), r2) ==> r1 == r2
}

/// The result of `a` on `op`, `x`, `y`.
pub open spec fn arith_of<A: Fn(NumOp, u64, u64) -> u64>(a: A, op: NumOp, x: u64, y: u64) -> u64 {
    choose|r: u64| a.ensures((op, x, y), r)
}

/// `show` can print every value, and prints each value one way.
pub open spec fn show_ok<S: Fn(u64) -> String>(show: S) -> bool {
    &&& forall|b: u64| #[trigger] show.requires((b,))
    &&& forall|b: u64, s1: String, s2: String|
        #[trigger] show.ensures((b,), s1) && #[trigger] show.ensures((b,), s2) ==> s1@ == s2@
}

/// The text that `show` prints for `b`.
pub open spec fn show_of<S: Fn(u64) -> String>(show: S, b: u64) -> Seq<char> {
    (choose|s: String| show.ensures((b,), s))@
}

/// `parse` can read every well-formed literal, and reads each text one way.
pub open spec fn parse_ok<P: Fn(String) -> u64>(parse: P) -> bool {
    &&& forall|s: String| is_number_literal(s@) ==> #[trigger] parse.requires((s,))
    &&& forall|s1: String, s2: String, r1: u64, r2: u64|
        s1@ == s2@ && #[trigger] parse.ensures((s1,), r1) && #[trigger] parse.ensures((s2,), r2)
            ==> r1 == r2
}

/// The value that `parse` reads from the text `t`.
pub open spec fn parse_of<P: Fn(String) -> u64>(parse: P, t: Seq<char>) -> u64 {
    choose|r: u64| parse_yields(parse, t, r)
}

/// Some call of `parse` on a string with the text `t` returns `r`.
pub open spec fn parse_yields<P: Fn(String) -> u64>(parse: P, t: Seq<char>, r: u64) -> bool {
    exists|s: String| s@ == t && #[trigger] parse.ensures((s,), r)
}

pub open spec fn is_ascii_digit(c: char) -> bool {
    '0' <= c <= '9'
}

pub open spec fn count_char(t: Seq<char>, c: char) -> nat
    decreases t.len(),
{
    if t.len() == 0 {
        0
    } else {
        count_char(t.drop_last(), c) + if t.last() == c { 1nat } else { 0nat }
    }
}

/// A decimal literal: ASCII digits with at most one point, starting with a digit.
pub open spec fn is_number_literal(t: Seq<char>) -> bool {
    &&& t.len() > 0
    &&& is_ascii_digit(t[0])
    &&& forall|i: int| 0 <= i < t.len() ==> is_ascii_digit(#[trigger] t[i]) || t[i] == '.'
    &&& count_char(t, '.') <= 1
}

pub fn call_arith<A: Fn(NumOp, u64, u64) -> u64>(a: &A, op: NumOp, x: u64, y: u64) -> (r: u64)
    requires
        arith_ok(*a),
    ensures
        r == arith_of(*a, op, x, y),
{
    let r = a(op, x, y);
    assert(a.ensures((op, x, y), r));
    r
}

pub fn call_show<S: Fn(u64) -> String>(show: &S, b: u64) -> (r: String)
    requires
        show_ok(*show),
    ensures
        r@ == show_of(*show, b),
{
    let r = show(b);
    assert(show.ensures((b,), r));
    r
}

pub fn call_parse<P: Fn(String) -> u64>(parse: &P, s: String) -> (r: u64)
    requires
        parse_ok(*parse),
        is_number_literal(s@),
    ensures
        r == parse_of(*parse, s@),
{
    let ghost t = s@;
    let r = parse(s);
    assert(parse_yields(*parse, t, r));
    r
}

} // verus!
