use fixed::types::I16F16;
use vstd::prelude::*;

verus! {

/// The number one, as bits: the low 16 bits are the fraction.
pub const ONE_BITS: i32 = 65536;

/// The numbers one half, one quarter and one and a half, as bits.
pub const HALF_BITS: i32 = 32768;

pub const QUARTER_BITS: i32 = 16384;

pub const ONE_AND_HALF_BITS: i32 = 98304;

/// A signed 16.16 fixed-point number, held as its raw bit pattern.
#[derive(Clone, Copy, PartialEq, Eq, Structural, Debug)]
pub struct FixedPoint {
    pub bits: i32,
}

/// Bits of the wrapping sum.
pub open spec fn add_bits(a: i32, b: i32) -> i32 {
    (a + b) as i32
}

/// Bits of the wrapping difference.
pub open spec fn sub_bits(a: i32, b: i32) -> i32 {
    (a - b) as i32
}

/// Bits of the wrapping product: the exact product rounded down, low 32 bits kept.
pub open spec fn mul_bits(a: i32, b: i32) -> i32 {
    ((a as int * b as int) / 65536) as i32
}

/// Bits of the wrapping product by a plain integer.
pub open spec fn mul_int_bits(a: i32, n: i32) -> i32 {
    (a as int * n as int) as i32
}

/// The quotient of `x` by a nonzero `y`, rounded toward zero.
pub open spec fn trunc_div(x: int, y: int) -> int {
    let q = (if x < 0 { -x } else { x }) / (if y < 0 { -y } else { y });
    if (x < 0) != (y < 0) {
        -q
    } else {
        q
    }
}

/// Bits of the wrapping quotient: the bits shifted left by 16, divided
/// rounding toward zero, low 32 bits kept.
pub open spec fn div_bits(a: i32, b: i32) -> i32 {
    trunc_div(a as int * 65536, b as int) as i32
}

/// Bits of the wrapping absolute value.
pub open spec fn abs_bits(a: i32) -> i32 {
    if a < 0 {
        (-a) as i32
    } else {
        a
    }
}

/// Bits of the largest integer not above the value.
pub open spec fn floor_bits(a: i32) -> i32 {
    ((a as int / 65536) * 65536) as i32
}

/// Relies on I16F16::wrapping_add: the bits are added with wraparound.
#[verifier::external_body]
fn wrapping_add(a: i32, b: i32) -> (r: i32)
    ensures
        r == add_bits(a, b),
{
    I16F16::from_bits(a).wrapping_add(I16F16::from_bits(b)).to_bits()
}

/// Relies on I16F16::wrapping_sub: the bits are subtracted with wraparound.
#[verifier::external_body]
fn wrapping_sub(a: i32, b: i32) -> (r: i32)
    ensures
        r == sub_bits(a, b),
{
    I16F16::from_bits(a).wrapping_sub(I16F16::from_bits(b)).to_bits()
}

/// Relies on I16F16::wrapping_mul: the 64-bit product of the bits is shifted
/// right arithmetically by 16 and its low 32 bits are kept.
#[verifier::external_body]
fn wrapping_mul(a: i32, b: i32) -> (r: i32)
    ensures
        r == mul_bits(a, b),
{
    I16F16::from_bits(a).wrapping_mul(I16F16::from_bits(b)).to_bits()
}

/// Relies on I16F16::wrapping_mul_int: the bits are multiplied by the integer
/// with wraparound.
#[verifier::external_body]
fn wrapping_mul_int(a: i32, n: i32) -> (r: i32)
    ensures
        r == mul_int_bits(a, n),
{
    I16F16::from_bits(a).wrapping_mul_int(n).to_bits()
}

/// Relies on I16F16::wrapping_div: the bits shifted left by 16 are divided in
/// 64 bits, truncating, and the low 32 bits are kept; it panics on a zero
/// divisor.
#[verifier::external_body]
fn wrapping_div(a: i32, b: i32) -> (r: i32)
    requires
        b != 0,
    ensures
        r == div_bits(a, b),
{
    I16F16::from_bits(a).wrapping_div(I16F16::from_bits(b)).to_bits()
}

/// Relies on I16F16::wrapping_abs: the absolute value of the bits, with the
/// minimum mapped to itself.
#[verifier::external_body]
fn wrapping_abs(a: i32) -> (r: i32)
    ensures
        r == abs_bits(a),
{
    I16F16::from_bits(a).wrapping_abs().to_bits()
}

/// Relies on I16F16::floor: the fractional bits are cleared, rounding toward
/// negative infinity; with 16 integer bits this never overflows.
#[verifier::external_body]
fn floor(a: i32) -> (r: i32)
    ensures
        r == floor_bits(a),
{
    I16F16::from_bits(a).floor().to_bits()
}

/// Relies on I16F16::from_num for `usize`: an integer below 2^15 becomes the
/// number with that integer value.
#[verifier::external_body]
fn from_usize(n: usize) -> (r: i32)
    requires
        n < 32768,
    ensures
        r == n * 65536,
{
    I16F16::from_num(n).to_bits()
}

/// Relies on I16F16::to_num for `usize`: a non-negative number loses its
/// fractional bits.
#[verifier::external_body]
fn to_usize(a: i32) -> (r: usize)
    requires
        a >= 0,
    ensures
        r == a / 65536,
{
    I16F16::from_bits(a).to_num::<usize>()
}

impl FixedPoint {
    pub fn from_bits(bits: i32) -> (r: FixedPoint)
        ensures
            r.bits == bits,
    {
        FixedPoint { bits }
    }

    pub fn to_bits(self) -> (r: i32)
        ensures
            r == self.bits,
    {
        self.bits
    }

    /// The number with the integer value `n`.
    pub fn from_usize(n: usize) -> (r: FixedPoint)
        requires
            n < 32768,
        ensures
            r.bits == n * 65536,
    {
        FixedPoint { bits: from_usize(n) }
    }

    /// The integer part of a non-negative number.
    pub fn to_usize(self) -> (r: usize)
        requires
            self.bits >= 0,
        ensures
            r == self.bits / 65536,
    {
        to_usize(self.bits)
    }

    pub fn add(self, o: FixedPoint) -> (r: FixedPoint)
        ensures
            r.bits == add_bits(self.bits, o.bits),
    {
        FixedPoint { bits: wrapping_add(self.bits, o.bits) }
    }

    pub fn sub(self, o: FixedPoint) -> (r: FixedPoint)
        ensures
            r.bits == sub_bits(self.bits, o.bits),
    {
        FixedPoint { bits: wrapping_sub(self.bits, o.bits) }
    }

    pub fn mul(self, o: FixedPoint) -> (r: FixedPoint)
        ensures
            r.bits == mul_bits(self.bits, o.bits),
    {
        FixedPoint { bits: wrapping_mul(self.bits, o.bits) }
    }

    pub fn mul_int(self, n: i32) -> (r: FixedPoint)
        ensures
            r.bits == mul_int_bits(self.bits, n),
    {
        FixedPoint { bits: wrapping_mul_int(self.bits, n) }
    }

    pub fn div(self, o: FixedPoint) -> (r: FixedPoint)
        requires
            o.bits != 0,
        ensures
            r.bits == div_bits(self.bits, o.bits),
    {
        FixedPoint { bits: wrapping_div(self.bits, o.bits) }
    }

    pub fn abs(self) -> (r: FixedPoint)
        ensures
            r.bits == abs_bits(self.bits),
    {
        FixedPoint { bits: wrapping_abs(self.bits) }
    }

    pub fn floor(self) -> (r: FixedPoint)
        ensures
            r.bits == floor_bits(self.bits),
    {
        FixedPoint { bits: floor(self.bits) }
    }
}

} // verus!
