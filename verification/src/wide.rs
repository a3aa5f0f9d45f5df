//! Unsigned integers of 256 bits: wide enough for any sum of squared
//! differences of `i64` coordinates, and for the square of any `u128`.

use vstd::prelude::*;

verus! {

/// Two to the power of 64.
pub open spec fn pow64() -> int {
    0x1_0000_0000_0000_0000
}

/// Two to the power of 128.
pub open spec fn pow128() -> int {
    0x1_0000_0000_0000_0000_0000_0000_0000_0000int
}

/// An unsigned integer of 256 bits, as its upper and its lower half.
#[derive(Clone, Copy, Debug, PartialEq, Eq, Structural)]
pub struct U256 {
    pub high: u128,
    pub low: u128,
}

impl U256 {
    /// The number that the two halves stand for.
    pub open spec fn value(&self) -> nat {
        (self.high * pow128() + self.low) as nat
    }

    /// `x`, widened.
    pub fn from_u128(x: u128) -> (r: U256)
        ensures
            r.value() == x,
    {
        U256 { high: 0, low: x }
    }

    /// `self + x`, where the sum still has 256 bits.
    pub fn plus(&self, x: u128) -> (r: U256)
        requires
            self.value() + x < pow128() * pow128(),
        ensures
            r.value() == self.value() + x,
    {
        assert(pow128() * pow128() == (u128::MAX + 1) * pow128()) by (nonlinear_arith)
            requires
                pow128() == u128::MAX + 1,
        ;
        if self.low <= u128::MAX - x {
            U256 { high: self.high, low: self.low + x }
        } else {
            U256 { high: self.high + 1, low: self.low - (u128::MAX - x) - 1 }
        }
    }

    /// Whether `self` is the smaller number.
    pub fn less_than(&self, other: &U256) -> (r: bool)
        ensures
            r == (self.value() < other.value()),
    {
        self.high < other.high || (self.high == other.high && self.low < other.low)
    }
}

/// The full product of two `u128`.
pub fn wide_product(a: u128, b: u128) -> (r: U256)
    ensures
        r.value() == a * b,
{
    let a1: u128 = a / 0x1_0000_0000_0000_0000;
    let a0: u128 = a % 0x1_0000_0000_0000_0000;
    let b1: u128 = b / 0x1_0000_0000_0000_0000;
    let b0: u128 = b % 0x1_0000_0000_0000_0000;
    proof {
        lemma_half_product(a0 as int, b0 as int);
        lemma_half_product(a0 as int, b1 as int);
        lemma_half_product(a1 as int, b0 as int);
        lemma_half_product(a1 as int, b1 as int);
    }
    let p00: u128 = a0 * b0;
    let p01: u128 = a0 * b1;
    let p10: u128 = a1 * b0;
    let p11: u128 = a1 * b1;
    let middle: u128 = p01 % 0x1_0000_0000_0000_0000 + p10 % 0x1_0000_0000_0000_0000 + p00
        / 0x1_0000_0000_0000_0000;
    let low: u128 = (middle % 0x1_0000_0000_0000_0000) * 0x1_0000_0000_0000_0000 + p00
        % 0x1_0000_0000_0000_0000;
    let high: u128 = p11 + p01 / 0x1_0000_0000_0000_0000 + p10 / 0x1_0000_0000_0000_0000 + middle
        / 0x1_0000_0000_0000_0000;
    proof {
        assert(a * b == p11 * (pow64() * pow64()) + (p01 + p10) * pow64() + p00)
            by (nonlinear_arith)
            requires
                a == a1 * pow64() + a0,
                b == b1 * pow64() + b0,
                p00 == a0 * b0,
                p01 == a0 * b1,
                p10 == a1 * b0,
                p11 == a1 * b1,
        ;
        assert(pow64() * pow64() == pow128()) by (nonlinear_arith)
            requires
                pow64() == 0x1_0000_0000_0000_0000,
                pow128() == 0x1_0000_0000_0000_0000_0000_0000_0000_0000int,
        ;
    }
    U256 { high, low }
}

/// The product of two numbers below `2^64` is at most `(2^64 - 1)^2`.
proof fn lemma_half_product(x: int, y: int)
    requires
        0 <= x < pow64(),
        0 <= y < pow64(),
    ensures
        0 <= x * y <= 0xffff_ffff_ffff_fffe_0000_0000_0000_0001,
{
    assert(0 <= x * y <= 0xffff_ffff_ffff_ffff * 0xffff_ffff_ffff_ffff) by (nonlinear_arith)
        requires
            0 <= x <= 0xffff_ffff_ffff_ffff,
            0 <= y <= 0xffff_ffff_ffff_ffff,
    ;
}

} // verus!
