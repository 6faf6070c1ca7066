//! Comparisons of floats by their bit patterns.
//!
//! A bit pattern orders as the float that it stands for: sign and magnitude,
//! with both zeros equal and NaN unordered.
use crate::patch::{BITS_ONE, BITS_ZERO, Bits};
use vstd::prelude::*;

verus! {

/// Whether the bits are those of a NaN.
pub open spec fn is_nan(b: Bits) -> bool {
    b % 0x8000_0000 > 0x7F80_0000
}

/// The place of a float that is not NaN in the order of floats.
pub open spec fn rank(b: Bits) -> int {
    if b < 0x8000_0000 {
        b as int
    } else {
        0x8000_0000 - b
    }
}

/// `a < b`.
pub open spec fn lt(a: Bits, b: Bits) -> bool {
    !is_nan(a) && !is_nan(b) && rank(a) < rank(b)
}

/// `a <= b`.
pub open spec fn le(a: Bits, b: Bits) -> bool {
    !is_nan(a) && !is_nan(b) && rank(a) <= rank(b)
}

/// `a == b`.
pub open spec fn same(a: Bits, b: Bits) -> bool {
    !is_nan(a) && !is_nan(b) && rank(a) == rank(b)
}

/// `v` held to the range from `lo` to `hi`. A NaN stays as it is.
pub open spec fn clamped(v: Bits, lo: Bits, hi: Bits) -> Bits {
    if lt(v, lo) {
        lo
    } else if lt(hi, v) {
        hi
    } else {
        v
    }
}

/// `v` held to the range from 0 to 1.
pub open spec fn unit_clamped(v: Bits) -> Bits {
    clamped(v, BITS_ZERO, BITS_ONE)
}

/// Whether two lists hold equal floats in the same places.
pub open spec fn all_same(a: Seq<Bits>, b: Seq<Bits>) -> bool {
    a.len() == b.len() && forall|i: int| 0 <= i < a.len() ==> same(#[trigger] a[i], b[i])
}

fn rank_of(b: Bits) -> (r: i64)
    ensures
        r == rank(b),
{
    if b < 0x8000_0000 {
        b as i64
    } else {
        0x8000_0000i64 - b as i64
    }
}

/// Whether the bits are those of a NaN.
pub fn bits_nan(b: Bits) -> (r: bool)
    ensures
        r == is_nan(b),
{
    b % 0x8000_0000 > 0x7F80_0000
}

/// `a < b`, as floats.
pub fn bits_lt(a: Bits, b: Bits) -> (r: bool)
    ensures
        r == lt(a, b),
{
    !bits_nan(a) && !bits_nan(b) && rank_of(a) < rank_of(b)
}

/// `a <= b`, as floats.
pub fn bits_le(a: Bits, b: Bits) -> (r: bool)
    ensures
        r == le(a, b),
{
    !bits_nan(a) && !bits_nan(b) && rank_of(a) <= rank_of(b)
}

/// `a == b`, as floats.
pub fn bits_eq(a: Bits, b: Bits) -> (r: bool)
    ensures
        r == same(a, b),
{
    !bits_nan(a) && !bits_nan(b) && rank_of(a) == rank_of(b)
}

/// `v` held to the range from `lo` to `hi`.
pub fn bits_clamp(v: Bits, lo: Bits, hi: Bits) -> (r: Bits)
    ensures
        r == clamped(v, lo, hi),
{
    if bits_lt(v, lo) {
        lo
    } else if bits_lt(hi, v) {
        hi
    } else {
        v
    }
}

/// `v` held to the range from 0 to 1.
pub fn bits_unit_clamp(v: Bits) -> (r: Bits)
    ensures
        r == unit_clamped(v),
{
    bits_clamp(v, BITS_ZERO, BITS_ONE)
}

/// Whether two lists hold equal floats in the same places.
pub fn bits_all_eq(a: &[Bits], b: &[Bits]) -> (r: bool)
    ensures
        r == all_same(a@, b@),
{
    if a.len() != b.len() {
        return false;
    }
    let mut i: usize = 0;
    while i < a.len()
        invariant
            i <= a@.len(),
            a@.len() == b@.len(),
            forall|j: int| 0 <= j < i ==> same(#[trigger] a@[j], b@[j]),
        decreases a@.len() - i,
    {
        if !bits_eq(a[i], b[i]) {
            return false;
        }
        i = i + 1;
    }
    true
}

/// Holding to a range twice is holding once, and what is held lies in it.
pub proof fn clamped_lies_within(v: Bits, lo: Bits, hi: Bits)
    requires
        le(lo, hi),
    ensures
        clamped(clamped(v, lo, hi), lo, hi) == clamped(v, lo, hi),
        !is_nan(v) ==> le(lo, clamped(v, lo, hi)) && le(clamped(v, lo, hi), hi),
{
}

/// A number without its sign.
pub open spec fn magnitude(b: Bits) -> Bits {
    (b % 0x8000_0000) as Bits
}

/// A number without its sign.
pub fn bits_abs(b: Bits) -> (r: Bits)
    ensures
        r == magnitude(b),
{
    b % 0x8000_0000
}

/// The larger of two numbers; the other one where one is no number.
pub open spec fn larger(a: Bits, b: Bits) -> Bits {
    if is_nan(a) || lt(a, b) {
        b
    } else {
        a
    }
}

/// The larger of two numbers; the other one where one is no number.
pub fn bits_max(a: Bits, b: Bits) -> (r: Bits)
    ensures
        r == larger(a, b),
{
    if bits_nan(a) || bits_lt(a, b) {
        b
    } else {
        a
    }
}

/// The order is that of floats: positive numbers by their bits, negative ones the
/// other way round and below the positive ones, both zeros alike, and a NaN
/// nowhere.
pub proof fn the_order_is_that_of_floats(a: Bits, b: Bits)
    ensures
        a <= 0x7F80_0000 && b <= 0x7F80_0000 ==> (lt(a, b) <==> a < b) && (le(a, b) <==> a <= b)
            && (same(a, b) <==> a == b),
        0x8000_0000 <= a <= 0xFF80_0000 && 0x8000_0000 <= b <= 0xFF80_0000 ==> (lt(a, b) <==> a
            > b) && (le(a, b) <==> a >= b) && (same(a, b) <==> a == b),
        0x8000_0000 < a <= 0xFF80_0000 && b <= 0x7F80_0000 ==> lt(a, b) && le(a, b) && !lt(b, a)
            && !le(b, a) && !same(a, b) && !same(b, a),
        a == 0x8000_0000 && b <= 0x7F80_0000 ==> (lt(a, b) <==> b > 0) && le(a, b) && (same(a, b)
            <==> b == 0),
        0x7F80_0000 < a < 0x8000_0000 || a > 0xFF80_0000 ==> !lt(a, b) && !lt(b, a) && !le(a, b)
            && !le(b, a) && !same(a, b) && !same(b, a),
{
}

/// Holding a number to a range with positive ends: a number in the range stays,
/// what is above becomes the upper end, and what is below, the negative numbers
/// too, the lower.
pub proof fn what_holding_does(v: Bits, lo: Bits, hi: Bits)
    requires
        lo <= hi <= 0x7F80_0000,
    ensures
        lo <= v <= hi ==> clamped(v, lo, hi) == v,
        hi < v <= 0x7F80_0000 ==> clamped(v, lo, hi) == hi,
        v < lo ==> clamped(v, lo, hi) == lo,
        0x8000_0000 < v <= 0xFF80_0000 ==> clamped(v, lo, hi) == lo,
{
}

/// A number held between 0 and 1: what lies there stays, more becomes 1, and
/// less becomes 0.
pub proof fn what_holding_to_one_does(v: Bits)
    ensures
        v <= 0x3F80_0000 ==> unit_clamped(v) == v,
        0x3F80_0000 < v <= 0x7F80_0000 ==> unit_clamped(v) == 0x3F80_0000,
        0x8000_0000 < v <= 0xFF80_0000 ==> unit_clamped(v) == 0,
{
}

/// The larger of two positive numbers is one of them and not below the other.
pub proof fn the_larger_is_no_less(a: Bits, b: Bits)
    ensures
        larger(a, b) == a || larger(a, b) == b,
        a <= 0x7F80_0000 && b <= 0x7F80_0000 ==> larger(a, b) >= a && larger(a, b) >= b,
        0x7F80_0000 < a < 0x8000_0000 && b <= 0x7F80_0000 ==> larger(a, b) == b,
        0x7F80_0000 < b < 0x8000_0000 && a <= 0x7F80_0000 ==> larger(a, b) == a,
{
}

} // verus!
