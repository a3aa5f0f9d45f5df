//! Euclidean distance between two vectors of equal length.
//!
//! The squared distance is an exact integer. The distance itself is its
//! square root rounded down to a whole unit; orderings and thresholds are
//! decided on the squares, where nothing is rounded.

use vstd::prelude::*;
use crate::wide::{pow128, wide_product, U256};

verus! {

/// The sum of the squared coordinate differences of `a` and `b`.
pub open spec fn squared_distance_spec(a: Seq<i64>, b: Seq<i64>) -> int
    recommends
        a.len() == b.len(),
    decreases a.len(),
{
    if a.len() == 0 {
        0
    } else {
        squared_distance_spec(a.drop_last(), b.drop_last()) + (a.last() - b.last()) * (a.last()
            - b.last())
    }
}

/// The largest natural number whose square does not exceed `x`.
pub open spec fn floor_sqrt(x: nat) -> nat
    decreases x,
{
    if x == 0 {
        0
    } else {
        let r = floor_sqrt((x - 1) as nat);
        if (r + 1) * (r + 1) <= x {
            r + 1
        } else {
            r
        }
    }
}

/// The Euclidean distance of `a` and `b`, rounded down to a whole unit.
pub open spec fn distance_spec(a: Seq<i64>, b: Seq<i64>) -> nat
    recommends
        a.len() == b.len(),
{
    floor_sqrt(squared_distance_spec(a, b) as nat)
}

/// `floor_sqrt(x)` is the one number `r` with `r * r <= x < (r + 1) * (r + 1)`.
pub proof fn lemma_floor_sqrt_bounds(x: nat)
    ensures
        floor_sqrt(x) * floor_sqrt(x) <= x < (floor_sqrt(x) + 1) * (floor_sqrt(x) + 1),
    decreases x,
{
    let s = floor_sqrt(x);
    if x == 0 {
        assert(s == 0);
        assert(s * s == 0 && (s + 1) * (s + 1) == 1) by (nonlinear_arith)
            requires
                s == 0,
        ;
    } else {
        lemma_floor_sqrt_bounds((x - 1) as nat);
        let r = floor_sqrt((x - 1) as nat);
        if (r + 1) * (r + 1) <= x {
            assert(s == r + 1);
            assert(s * s <= x && x < (s + 1) * (s + 1)) by (nonlinear_arith)
                requires
                    s == r + 1,
                    (r + 1) * (r + 1) <= x,
                    x - 1 < (r + 1) * (r + 1),
            ;
        } else {
            assert(s == r);
            assert(s * s <= x && x < (s + 1) * (s + 1)) by (nonlinear_arith)
                requires
                    s == r,
                    r * r <= x - 1,
                    !((r + 1) * (r + 1) <= x),
            ;
        }
    }
}

/// A number whose square is at most `x`, and whose successor's square is
/// above `x`, is `floor_sqrt(x)`.
pub proof fn lemma_floor_sqrt_unique(x: nat, r: nat)
    requires
        r * r <= x < (r + 1) * (r + 1),
    ensures
        r == floor_sqrt(x),
{
    lemma_floor_sqrt_bounds(x);
    let s = floor_sqrt(x);
    if r < s {
        assert((r + 1) * (r + 1) <= s * s) by (nonlinear_arith)
            requires
                r + 1 <= s,
        ;
    } else if s < r {
        assert((s + 1) * (s + 1) <= r * r) by (nonlinear_arith)
            requires
                s + 1 <= r,
        ;
    }
}

/// A rounded-down square root is below a whole threshold exactly when the
/// number is below the threshold's square.
pub proof fn lemma_floor_sqrt_below(x: nat, bound: nat)
    ensures
        floor_sqrt(x) < bound <==> x < bound * bound,
{
    lemma_floor_sqrt_bounds(x);
    let r = floor_sqrt(x);
    if r < bound {
        assert((r + 1) * (r + 1) <= bound * bound) by (nonlinear_arith)
            requires
                r + 1 <= bound,
        ;
    } else {
        assert(bound * bound <= r * r) by (nonlinear_arith)
            requires
                bound <= r,
        ;
    }
}

/// Rounding down keeps the order of square roots.
pub proof fn lemma_floor_sqrt_monotonic(x: nat, y: nat)
    requires
        x <= y,
    ensures
        floor_sqrt(x) <= floor_sqrt(y),
{
    lemma_floor_sqrt_bounds(x);
    lemma_floor_sqrt_bounds(y);
    let r = floor_sqrt(x);
    let s = floor_sqrt(y);
    if s < r {
        assert((s + 1) * (s + 1) <= r * r) by (nonlinear_arith)
            requires
                s + 1 <= r,
        ;
    }
}

/// The squared distance is never negative, and each coordinate adds less
/// than `2^128` to it.
pub proof fn lemma_squared_distance_range(a: Seq<i64>, b: Seq<i64>)
    requires
        a.len() == b.len(),
    ensures
        0 <= squared_distance_spec(a, b) <= a.len() * u128::MAX,
    decreases a.len(),
{
    if a.len() > 0 {
        lemma_squared_distance_range(a.drop_last(), b.drop_last());
        let d = a.last() - b.last();
        assert(0 <= d * d <= u128::MAX) by (nonlinear_arith)
            requires
                -0xffff_ffff_ffff_ffff <= d <= 0xffff_ffff_ffff_ffff,
        ;
        assert(a.len() * u128::MAX == (a.len() - 1) * u128::MAX + u128::MAX) by (nonlinear_arith);
    }
}

/// Distance is symmetric.
pub proof fn lemma_distance_symmetric(a: Seq<i64>, b: Seq<i64>)
    requires
        a.len() == b.len(),
    ensures
        squared_distance_spec(a, b) == squared_distance_spec(b, a),
        distance_spec(a, b) == distance_spec(b, a),
    decreases a.len(),
{
    if a.len() > 0 {
        lemma_distance_symmetric(a.drop_last(), b.drop_last());
        let d = a.last() - b.last();
        let e = b.last() - a.last();
        assert(d * d == e * e) by (nonlinear_arith)
            requires
                e == -d,
        ;
    }
}

/// Distance is never negative.
pub proof fn lemma_distance_non_negative(a: Seq<i64>, b: Seq<i64>)
    requires
        a.len() == b.len(),
    ensures
        squared_distance_spec(a, b) >= 0,
        distance_spec(a, b) >= 0,
{
    lemma_squared_distance_range(a, b);
}

/// The distance of a vector from itself is zero.
pub proof fn lemma_distance_to_self(x: Seq<i64>)
    ensures
        squared_distance_spec(x, x) == 0,
        distance_spec(x, x) == 0,
    decreases x.len(),
{
    if x.len() > 0 {
        lemma_distance_to_self(x.drop_last());
    }
}

/// Distance is zero only between equal vectors.
pub proof fn lemma_distance_zero_iff_equal(a: Seq<i64>, b: Seq<i64>)
    requires
        a.len() == b.len(),
    ensures
        squared_distance_spec(a, b) == 0 <==> a == b,
        distance_spec(a, b) == 0 <==> a == b,
    decreases a.len(),
{
    lemma_squared_distance_range(a, b);
    lemma_floor_sqrt_below(squared_distance_spec(a, b) as nat, 1);
    if a.len() == 0 {
        assert(a =~= b);
    } else {
        lemma_distance_zero_iff_equal(a.drop_last(), b.drop_last());
        lemma_squared_distance_range(a.drop_last(), b.drop_last());
        let d = a.last() - b.last();
        assert(d * d >= 0 && (d * d == 0 <==> d == 0)) by (nonlinear_arith);
        if squared_distance_spec(a, b) == 0 {
            assert(a.drop_last() == b.drop_last());
            assert(a =~= a.drop_last().push(a.last()));
            assert(b =~= b.drop_last().push(b.last()));
        }
        if a == b {
            lemma_distance_to_self(a);
        }
    }
}

/// The exact squared Euclidean distance of `a` and `b`.
pub fn squared_distance(a: &Vec<i64>, b: &Vec<i64>) -> (r: U256)
    requires
        a@.len() == b@.len(),
    ensures
        r.value() == squared_distance_spec(a@, b@),
{
    let n = a.len();
    let mut total = U256::from_u128(0);
    let mut i: usize = 0;
    while i < n
        invariant
            n == a@.len(),
            n == b@.len(),
            i <= n,
            total.value() == squared_distance_spec(a@.take(i as int), b@.take(i as int)),
        decreases n - i,
    {
        let x: i128 = a[i] as i128;
        let y: i128 = b[i] as i128;
        let gap: u128 = if x >= y {
            (x - y) as u128
        } else {
            (y - x) as u128
        };
        proof {
            let ai = a@.take(i + 1);
            let bi = b@.take(i + 1);
            assert(ai.drop_last() =~= a@.take(i as int));
            assert(bi.drop_last() =~= b@.take(i as int));
            lemma_squared_distance_range(a@.take(i as int), b@.take(i as int));
            let d = ai.last() - bi.last();
            assert(gap * gap == d * d) by (nonlinear_arith)
                requires
                    gap == d || gap == -d,
            ;
            assert(gap * gap <= u128::MAX) by (nonlinear_arith)
                requires
                    0 <= gap <= 0xffff_ffff_ffff_ffff,
            ;
            assert(i * u128::MAX + u128::MAX < pow128() * pow128()) by (nonlinear_arith)
                requires
                    0 <= i < 0xffff_ffff_ffff_ffff,
                    pow128() == u128::MAX + 1,
            ;
        }
        let square: u128 = gap * gap;
        total = total.plus(square);
        i = i + 1;
    }
    proof {
        assert(a@.take(n as int) =~= a@);
        assert(b@.take(n as int) =~= b@);
    }
    total
}

/// The square root of `x`, rounded down.
pub fn isqrt(x: U256) -> (r: u128)
    ensures
        r == floor_sqrt(x.value()),
{
    let mut low: u128 = 0;
    let mut high: u128 = u128::MAX;
    proof {
        assert(low * low == 0) by (nonlinear_arith)
            requires
                low == 0,
        ;
        assert(x.value() < (high + 1) * (high + 1)) by (nonlinear_arith)
            requires
                x.value() == x.high * pow128() + x.low,
                0 <= x.high < pow128(),
                0 <= x.low < pow128(),
                high + 1 == pow128(),
        ;
    }
    while low < high
        invariant
            low <= high,
            low * low <= x.value() < (high + 1) * (high + 1),
        decreases high - low,
    {
        let mid: u128 = high - (high - low) / 2;
        let square = wide_product(mid, mid);
        if x.less_than(&square) {
            high = mid - 1;
        } else {
            low = mid;
        }
    }
    proof {
        lemma_floor_sqrt_unique(x.value(), low as nat);
    }
    low
}

/// The Euclidean distance of `a` and `b`, rounded down to a whole unit.
pub fn distance(a: &Vec<i64>, b: &Vec<i64>) -> (r: u128)
    requires
        a@.len() == b@.len(),
    ensures
        r == distance_spec(a@, b@),
{
    isqrt(squared_distance(a, b))
}

} // verus!
