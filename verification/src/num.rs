//! IEEE-754 double-precision values carried as raw bit patterns.
//!
//! The library never holds a native floating-point value: every number is a
//! `Num`, the 64 bits of an IEEE-754 double. Comparisons, truncation to an
//! integer, negation and absolute value are pure functions of the bit
//! pattern and are implemented and verified here as integer code. Genuine
//! arithmetic (sum, product, quotient, square root, exponential, logarithm)
//! is handed to outside soft-float code behind trusted wrappers; each such
//! result is named by an uninterpreted spec function of the operand bits.

use vstd::prelude::*;
use rustc_apfloat::Float;
use rustc_apfloat::ieee::Double;
use rand::RngCore;

verus! {

/// An IEEE-754 double carried as its 64-bit pattern.
#[derive(Clone, Copy, PartialEq, Eq, Structural, Debug)]
pub struct Num {
    pub bits: u64,
}

impl Num {
    pub fn from_bits(bits: u64) -> (r: Num)
        ensures
            r.bits == bits,
    {
        Num { bits }
    }
}

/// Bit pattern of 0.0
pub const BITS_ZERO: u64 = 0x0000_0000_0000_0000;
/// Bit pattern of 0.5
pub const BITS_HALF: u64 = 0x3FE0_0000_0000_0000;
/// Bit pattern of 1.0
pub const BITS_ONE: u64 = 0x3FF0_0000_0000_0000;
/// Bit pattern of 2.0
pub const BITS_TWO: u64 = 0x4000_0000_0000_0000;
/// Bit pattern of 12.0
pub const BITS_TWELVE: u64 = 0x4028_0000_0000_0000;
/// Bit pattern of 2^-53, the scale that turns a 53-bit word into a unit uniform
pub const BITS_SCALE53: u64 = 0x3CA0_0000_0000_0000;
/// Bit pattern of -0.0
pub const BITS_NEG_ZERO: u64 = 0x8000_0000_0000_0000;
/// Bit pattern of -1.0
pub const BITS_NEG_ONE: u64 = 0xBFF0_0000_0000_0000;

pub open spec fn sign_bit(a: u64) -> bool {
    a >> 63 == 1
}

pub open spec fn biased_exp(a: u64) -> u64 {
    (a >> 52) & 0x7FF
}

pub open spec fn frac_bits(a: u64) -> u64 {
    a & 0x000F_FFFF_FFFF_FFFF
}

pub open spec fn f_is_nan(a: u64) -> bool {
    biased_exp(a) == 0x7FF && frac_bits(a) != 0
}

/// Neither NaN nor an infinity.
pub open spec fn f_is_finite(a: u64) -> bool {
    biased_exp(a) != 0x7FF
}

/// Signed key that orders non-NaN doubles numerically (both zeros map to 0).
pub open spec fn order_key(a: u64) -> int {
    if sign_bit(a) {
        -((a & 0x7FFF_FFFF_FFFF_FFFF) as int)
    } else {
        a as int
    }
}

/// IEEE `<` on doubles: false whenever either side is NaN.
pub open spec fn f_lt(a: u64, b: u64) -> bool {
    !f_is_nan(a) && !f_is_nan(b) && order_key(a) < order_key(b)
}

/// IEEE `<=` on doubles: false whenever either side is NaN.
pub open spec fn f_le(a: u64, b: u64) -> bool {
    !f_is_nan(a) && !f_is_nan(b) && order_key(a) <= order_key(b)
}

/// IEEE `==` on doubles: false for NaN, true across the two zeros.
pub open spec fn f_eq(a: u64, b: u64) -> bool {
    !f_is_nan(a) && !f_is_nan(b) && order_key(a) == order_key(b)
}

/// The cast `x as i32` of the double with bits `a`: truncation toward zero,
/// NaN to 0, saturation at the i32 bounds.
pub open spec fn f_as_i32(a: u64) -> int {
    let e = biased_exp(a);
    if f_is_nan(a) {
        0
    } else if e == 0x7FF {
        if sign_bit(a) { -0x8000_0000 } else { 0x7FFF_FFFF }
    } else if e < 1023 {
        0
    } else if e >= 1086 {
        if sign_bit(a) { -0x8000_0000 } else { 0x7FFF_FFFF }
    } else {
        let m = (1u64 << 52) | frac_bits(a);
        let mag = if e >= 1075 { m << ((e - 1075) as u64) } else { m >> ((1075 - e) as u64) };
        if sign_bit(a) {
            if mag >= 0x8000_0000 { -0x8000_0000 } else { -(mag as int) }
        } else {
            if mag >= 0x8000_0000 { 0x7FFF_FFFF } else { mag as int }
        }
    }
}

/// The cast `x as u64` of the double with bits `a`: truncation toward zero,
/// NaN and negatives to 0, saturation at u64::MAX.
pub open spec fn f_as_u64(a: u64) -> u64 {
    let e = biased_exp(a);
    if f_is_nan(a) {
        0
    } else if sign_bit(a) {
        0
    } else if e == 0x7FF {
        0xFFFF_FFFF_FFFF_FFFF
    } else if e < 1023 {
        0
    } else if e >= 1087 {
        0xFFFF_FFFF_FFFF_FFFF
    } else {
        let m = (1u64 << 52) | frac_bits(a);
        if e >= 1075 { m << ((e - 1075) as u64) } else { m >> ((1075 - e) as u64) }
    }
}

/// IEEE negation: the sign bit flips, nothing else moves.
pub open spec fn f_neg(a: u64) -> u64 {
    a ^ 0x8000_0000_0000_0000
}

/// IEEE absolute value: the sign bit clears, nothing else moves.
pub open spec fn f_abs(a: u64) -> u64 {
    a & 0x7FFF_FFFF_FFFF_FFFF
}

/// How the constant doubles the library writes out behave under the bit-level
/// comparisons: handy whenever a contract pins one of them down.
pub proof fn lemma_const_facts()
    ensures
        !f_is_nan(BITS_ZERO),
        !f_is_nan(BITS_ONE),
        !f_is_nan(BITS_TWO),
        !f_is_nan(BITS_NEG_ONE),
        !f_eq(BITS_ONE, BITS_ZERO),
        !f_le(BITS_ZERO, BITS_NEG_ONE),
        f_abs(BITS_NEG_ONE) == BITS_ONE,
        BITS_ONE != BITS_NEG_ZERO,
{
    assert((0u64 >> 52) & 0x7FF == 0 && (0u64 >> 63) == 0
        && (0x3FF0_0000_0000_0000u64 >> 52) & 0x7FF == 0x3FF
        && (0x3FF0_0000_0000_0000u64 >> 63) == 0
        && (0x4000_0000_0000_0000u64 >> 52) & 0x7FF == 0x400
        && (0xBFF0_0000_0000_0000u64 >> 52) & 0x7FF == 0x3FF
        && (0xBFF0_0000_0000_0000u64 >> 63) == 1
        && (0xBFF0_0000_0000_0000u64 & 0x7FFF_FFFF_FFFF_FFFF) == 0x3FF0_0000_0000_0000) by (bit_vector);
}

pub uninterp spec fn add_bits(a: u64, b: u64) -> u64;

pub uninterp spec fn sub_bits(a: u64, b: u64) -> u64;

pub uninterp spec fn mul_bits(a: u64, b: u64) -> u64;

pub uninterp spec fn div_bits(a: u64, b: u64) -> u64;

pub uninterp spec fn sqrt_bits(a: u64) -> u64;

pub uninterp spec fn exp_bits(a: u64) -> u64;

pub uninterp spec fn ln_bits(a: u64) -> u64;

pub uninterp spec fn u64_as_f64_bits(v: u64) -> u64;

/// Relies on rustc_apfloat's IEEE double addition, correctly rounded as `+`;
/// adding positive zero, on either side, to a non-NaN value other than
/// negative zero returns that value unchanged.
#[verifier::external_body]
pub(crate) fn num_add(a: Num, b: Num) -> (r: Num)
    ensures
        r.bits == add_bits(a.bits, b.bits),
        a.bits == BITS_ZERO && !f_is_nan(b.bits) && b.bits != BITS_NEG_ZERO ==> r.bits == b.bits,
        b.bits == BITS_ZERO && !f_is_nan(a.bits) && a.bits != BITS_NEG_ZERO ==> r.bits == a.bits,
{
    let x = Double::from_bits(a.bits as u128);
    let y = Double::from_bits(b.bits as u128);
    Num { bits: (x + y).value.to_bits() as u64 }
}

/// Relies on rustc_apfloat's IEEE double subtraction, correctly rounded as
/// `-`; a finite value minus itself is positive zero under round-to-nearest.
#[verifier::external_body]
pub(crate) fn num_sub(a: Num, b: Num) -> (r: Num)
    ensures
        r.bits == sub_bits(a.bits, b.bits),
        a.bits == b.bits && f_is_finite(a.bits) ==> r.bits == BITS_ZERO,
{
    let x = Double::from_bits(a.bits as u128);
    let y = Double::from_bits(b.bits as u128);
    Num { bits: (x - y).value.to_bits() as u64 }
}

/// Relies on rustc_apfloat's IEEE double multiplication, correctly rounded
/// as `*`; multiplying a non-NaN value by one keeps it, by minus one flips
/// its sign bit, and the product of two positive zeros is positive zero.
#[verifier::external_body]
pub(crate) fn num_mul(a: Num, b: Num) -> (r: Num)
    ensures
        r.bits == mul_bits(a.bits, b.bits),
        b.bits == BITS_ONE && !f_is_nan(a.bits) ==> r.bits == a.bits,
        b.bits == BITS_NEG_ONE && !f_is_nan(a.bits) ==> r.bits == f_neg(a.bits),
        a.bits == BITS_ZERO && b.bits == BITS_ZERO ==> r.bits == BITS_ZERO,
{
    let x = Double::from_bits(a.bits as u128);
    let y = Double::from_bits(b.bits as u128);
    Num { bits: (x * y).value.to_bits() as u64 }
}

/// Relies on rustc_apfloat's IEEE double division, correctly rounded as `/`;
/// dividing a non-NaN value by one keeps it.
#[verifier::external_body]
pub(crate) fn num_div(a: Num, b: Num) -> (r: Num)
    ensures
        r.bits == div_bits(a.bits, b.bits),
        b.bits == BITS_ONE && !f_is_nan(a.bits) ==> r.bits == a.bits,
{
    let x = Double::from_bits(a.bits as u128);
    let y = Double::from_bits(b.bits as u128);
    Num { bits: (x / y).value.to_bits() as u64 }
}

/// Relies on libm::sqrt: the IEEE square root of the double carried in the bits.
#[verifier::external_body]
pub(crate) fn num_sqrt(a: Num) -> (r: Num)
    ensures
        r.bits == sqrt_bits(a.bits),
{
    let x = libm::sqrt(bytemuck::cast(a.bits));
    Num { bits: bytemuck::cast(x) }
}

/// Relies on libm::exp: e to the double carried in the bits.
#[verifier::external_body]
pub(crate) fn num_exp(a: Num) -> (r: Num)
    ensures
        r.bits == exp_bits(a.bits),
{
    let x = libm::exp(bytemuck::cast(a.bits));
    Num { bits: bytemuck::cast(x) }
}

/// Relies on libm::log: the natural logarithm of the double carried in the bits.
#[verifier::external_body]
pub(crate) fn num_ln(a: Num) -> (r: Num)
    ensures
        r.bits == ln_bits(a.bits),
{
    let x = libm::log(bytemuck::cast(a.bits));
    Num { bits: bytemuck::cast(x) }
}

/// Relies on rustc_apfloat's unsigned-to-double conversion, rounding to
/// nearest as the cast `v as f64` does.
#[verifier::external_body]
pub(crate) fn num_from_u64(v: u64) -> (r: Num)
    ensures
        r.bits == u64_as_f64_bits(v),
{
    Num { bits: Double::from_u128(v as u128).value.to_bits() as u64 }
}

pub(crate) fn is_nan_bits(a: u64) -> (r: bool)
    ensures
        r == f_is_nan(a),
{
    (a >> 52) & 0x7FF == 0x7FF && a & 0x000F_FFFF_FFFF_FFFF != 0
}

pub(crate) fn key_exec(a: u64) -> (k: i64)
    requires
        !f_is_nan(a),
    ensures
        k as int == order_key(a),
{
    proof {
        assert(((a >> 52) & 0x7FF == 0x7FF && a & 0x000F_FFFF_FFFF_FFFF != 0)
            || (a & 0x7FFF_FFFF_FFFF_FFFF) <= 0x7FF0_0000_0000_0000) by (bit_vector);
        assert(a >> 63 != 1 ==> a == (a & 0x7FFF_FFFF_FFFF_FFFF)) by (bit_vector);
    }
    let mag = a & 0x7FFF_FFFF_FFFF_FFFF;
    if a >> 63 == 1 {
        -(mag as i64)
    } else {
        a as i64
    }
}

/// IEEE `<` on the doubles carried in the two operands.
pub(crate) fn num_lt(a: Num, b: Num) -> (r: bool)
    ensures
        r == f_lt(a.bits, b.bits),
{
    if is_nan_bits(a.bits) || is_nan_bits(b.bits) {
        false
    } else {
        key_exec(a.bits) < key_exec(b.bits)
    }
}

/// IEEE `<=` on the doubles carried in the two operands.
pub(crate) fn num_le(a: Num, b: Num) -> (r: bool)
    ensures
        r == f_le(a.bits, b.bits),
{
    if is_nan_bits(a.bits) || is_nan_bits(b.bits) {
        false
    } else {
        key_exec(a.bits) <= key_exec(b.bits)
    }
}

/// IEEE `==` on the doubles carried in the two operands.
pub(crate) fn num_eq(a: Num, b: Num) -> (r: bool)
    ensures
        r == f_eq(a.bits, b.bits),
{
    if is_nan_bits(a.bits) || is_nan_bits(b.bits) {
        false
    } else {
        key_exec(a.bits) == key_exec(b.bits)
    }
}

/// IEEE negation of the double carried in the bits: the sign bit flips.
pub(crate) fn num_neg(a: Num) -> (r: Num)
    ensures
        r.bits == f_neg(a.bits),
{
    Num { bits: a.bits ^ 0x8000_0000_0000_0000 }
}

/// IEEE absolute value of the double carried in the bits: the sign bit clears.
pub(crate) fn num_abs(a: Num) -> (r: Num)
    ensures
        r.bits == f_abs(a.bits),
{
    Num { bits: a.bits & 0x7FFF_FFFF_FFFF_FFFF }
}

/// The cast `x as i32`, computed from the bit pattern.
pub(crate) fn trunc_to_i32(v: Num) -> (t: i32)
    ensures
        t as int == f_as_i32(v.bits),
{
    let a = v.bits;
    let e: u64 = (a >> 52) & 0x7FF;
    let frac: u64 = a & 0x000F_FFFF_FFFF_FFFF;
    let neg: bool = a >> 63 == 1;
    if e == 0x7FF && frac != 0 {
        0
    } else if e == 0x7FF {
        if neg { i32::MIN } else { i32::MAX }
    } else if e < 1023 {
        0
    } else if e >= 1086 {
        if neg { i32::MIN } else { i32::MAX }
    } else {
        let m: u64 = (1u64 << 52) | frac;
        let mag: u64 = if e >= 1075 {
            proof {
                assert(frac <= 0x000F_FFFF_FFFF_FFFF && 1075 <= e && e < 1086
                    ==> ((1u64 << 52) | frac) << ((e - 1075) as u64) < 0x8000_0000_0000_0000) by (bit_vector);
                assert(a & 0x000F_FFFF_FFFF_FFFF <= 0x000F_FFFF_FFFF_FFFF) by (bit_vector);
            }
            m << (e - 1075)
        } else {
            m >> (1075 - e)
        };
        if neg {
            if mag >= 0x8000_0000 { i32::MIN } else { -(mag as i32) }
        } else {
            if mag >= 0x8000_0000 { i32::MAX } else { mag as i32 }
        }
    }
}

/// The cast `x as u64`, computed from the bit pattern.
pub(crate) fn trunc_to_u64(v: Num) -> (t: u64)
    ensures
        t == f_as_u64(v.bits),
{
    let a = v.bits;
    let e: u64 = (a >> 52) & 0x7FF;
    let frac: u64 = a & 0x000F_FFFF_FFFF_FFFF;
    let neg: bool = a >> 63 == 1;
    if e == 0x7FF && frac != 0 {
        0
    } else if neg {
        0
    } else if e == 0x7FF {
        0xFFFF_FFFF_FFFF_FFFF
    } else if e < 1023 {
        0
    } else if e >= 1087 {
        0xFFFF_FFFF_FFFF_FFFF
    } else {
        let m: u64 = (1u64 << 52) | frac;
        let mag: u64 = if e >= 1075 { m << (e - 1075) } else { m >> (1075 - e) };
        mag
    }
}

/// The unit uniform that rand builds from one raw 64-bit draw:
/// `2^-53 * ((v >> 11) as f64)`, a value in `[0, 1)`.
pub open spec fn unit_from_u64(v: u64) -> u64 {
    mul_bits(BITS_SCALE53, u64_as_f64_bits(v >> 11))
}

/// The unit uniform in `(0, 1]` that rand builds from one raw draw for its
/// open-closed range: `2^-53 * (((v >> 11) + 1) as f64)`.
pub open spec fn unit_oc_from_u64(v: u64) -> u64 {
    mul_bits(BITS_SCALE53, u64_as_f64_bits(((v >> 11) + 1) as u64))
}

/// Relies on rand::rngs::ThreadRng: the thread-local generator handle,
/// opaque to the library; every draw goes through `next_random_u64`.
#[verifier::external_type_specification]
#[verifier::external_body]
pub struct ExThreadRng(rand::rngs::ThreadRng);

/// Relies on rand::thread_rng: a fresh handle to the thread-local generator.
#[verifier::external_body]
pub(crate) fn fresh_rng() -> rand::rngs::ThreadRng {
    rand::thread_rng()
}

/// Relies on rand's RngCore::next_u64: one uniformly random machine word;
/// nothing is assumed of the value.
#[verifier::external_body]
pub(crate) fn next_random_u64(rng: &mut rand::rngs::ThreadRng) -> u64 {
    rng.next_u64()
}

/// One uniform draw in `[0, 1)`, built from a raw word as rand itself does.
pub(crate) fn draw_unit(rng: &mut rand::rngs::ThreadRng) -> (r: Num)
    ensures
        exists|v: u64| r.bits == unit_from_u64(v),
{
    let v = next_random_u64(rng);
    let f = num_from_u64(v >> 11);
    let r = num_mul(Num { bits: BITS_SCALE53 }, f);
    proof {
        assert(r.bits == unit_from_u64(v));
    }
    r
}

/// One uniform draw in `(0, 1]`, the variant the exponential inverse
/// transform needs so its logarithm stays finite.
pub(crate) fn draw_unit_oc(rng: &mut rand::rngs::ThreadRng) -> (r: Num)
    ensures
        exists|v: u64| r.bits == unit_oc_from_u64(v),
{
    let v = next_random_u64(rng);
    proof {
        assert(v >> 11 <= 0x001F_FFFF_FFFF_FFFF) by (bit_vector);
    }
    let f = num_from_u64((v >> 11) + 1);
    let r = num_mul(Num { bits: BITS_SCALE53 }, f);
    proof {
        assert(r.bits == unit_oc_from_u64(v));
    }
    r
}

} // verus!
