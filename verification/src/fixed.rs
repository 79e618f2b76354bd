//! Fixed-point arithmetic shared by every component.
//!
//! A quantity is a signed 64-bit count of millionths: a length counts
//! millionths of a point, a time millionths of a millisecond, a velocity
//! millionths of a point per millisecond, and a pure factor millionths of
//! one. Quotients round toward zero, so that a motion and its mirror image
//! are treated alike, and a result that leaves the 64-bit range is held at
//! the nearest end of it.

use vstd::prelude::*;
use vstd::arithmetic::div_mod::lemma_fundamental_div_mod;
use vstd::arithmetic::div_mod::lemma_fundamental_div_mod_converse;

verus! {

/// Raw units in one whole unit.
pub const SCALE: i64 = 1_000_000;

/// The absolute value of `x`.
pub open spec fn magnitude(x: int) -> int {
    if x < 0 {
        -x
    } else {
        x
    }
}

/// `x` held inside the 64-bit range.
pub open spec fn saturated(x: int) -> int {
    if x < i64::MIN {
        i64::MIN as int
    } else if x > i64::MAX {
        i64::MAX as int
    } else {
        x
    }
}

/// The quotient of `n` by `d`, rounded toward zero.
pub open spec fn ratio(n: int, d: int) -> int
    recommends
        d != 0,
{
    if (n >= 0) == (d > 0) {
        magnitude(n) / magnitude(d)
    } else {
        -(magnitude(n) / magnitude(d))
    }
}

/// The product of two quantities, one of them a count of millionths,
/// rounded toward zero.
pub open spec fn scaled_product(a: int, b: int) -> int {
    ratio(a * b, SCALE as int)
}

/// A quotient of a numerator within `bound * d` stays within `bound`.
pub(crate) proof fn lemma_ratio_bounded(n: int, d: int, bound: int)
    requires
        d > 0,
        -(bound * d) <= n <= bound * d,
    ensures
        -bound <= ratio(n, d) <= bound,
{
    let q = magnitude(n) / d;
    lemma_fundamental_div_mod(magnitude(n), d);
    assert(0 <= q <= bound) by (nonlinear_arith)
        requires
            magnitude(n) == d * q + magnitude(n) % d,
            0 <= magnitude(n) % d < d,
            0 <= magnitude(n) <= bound * d,
            d > 0,
    ;
}

/// A quotient of a numerator between `low * d` and `high * d` lies between
/// `low` and `high`.
pub(crate) proof fn lemma_ratio_between(n: int, d: int, low: int, high: int)
    requires
        d > 0,
        low * d <= n <= high * d,
    ensures
        low <= ratio(n, d) <= high,
{
    let q = magnitude(n) / d;
    lemma_fundamental_div_mod(magnitude(n), d);
    if n >= 0 {
        assert(low <= q <= high) by (nonlinear_arith)
            requires
                n == d * q + magnitude(n) % d,
                0 <= magnitude(n) % d < d,
                low * d <= n <= high * d,
                d > 0,
        ;
    } else {
        assert(low <= -q <= high) by (nonlinear_arith)
            requires
                -n == d * q + magnitude(n) % d,
                0 <= magnitude(n) % d < d,
                low * d <= n <= high * d,
                d > 0,
        ;
    }
}

/// The product of two 64-bit quantities, divided by the scale, leaves room
/// in 128 bits to add another.
pub(crate) proof fn lemma_scaled_product_bounded(a: int, b: int)
    requires
        i64::MIN <= a <= i64::MAX,
        i64::MIN <= b <= i64::MAX,
    ensures
        -0x4000_0000_0000_0000_0000_0000_0000_0000 <= scaled_product(a, b)
            <= 0x4000_0000_0000_0000_0000_0000_0000_0000,
{
    assert(-(0x4000_0000_0000_0000_0000_0000_0000_0000 * 1) <= a * b
        <= 0x4000_0000_0000_0000_0000_0000_0000_0000 * 1) by (nonlinear_arith)
        requires
            -0x8000_0000_0000_0000 <= a <= 0x8000_0000_0000_0000,
            -0x8000_0000_0000_0000 <= b <= 0x8000_0000_0000_0000,
    ;
    lemma_ratio_bounded(
        a * b,
        SCALE as int,
        0x4000_0000_0000_0000_0000_0000_0000_0000,
    );
}

/// Holds a wide intermediate result inside the 64-bit range.
pub(crate) fn saturate(x: i128) -> (r: i64)
    ensures
        r == saturated(x as int),
{
    if x < i64::MIN as i128 {
        i64::MIN
    } else if x > i64::MAX as i128 {
        i64::MAX
    } else {
        x as i64
    }
}

/// The absolute value of a 64-bit quantity, which always fits in 128 bits.
pub(crate) fn magnitude_of(x: i64) -> (r: i128)
    ensures
        r == magnitude(x as int),
        0 <= r <= 0x8000_0000_0000_0000,
{
    let wide: i128 = x as i128;
    if wide < 0 {
        -wide
    } else {
        wide
    }
}

/// Divides rounding toward zero.
pub(crate) fn divide(n: i128, d: i128) -> (r: i128)
    requires
        d != 0,
        i128::MIN < n,
        i128::MIN < d,
    ensures
        r == ratio(n as int, d as int),
        magnitude(r as int) <= magnitude(n as int),
{
    let n_abs: i128 = if n < 0 { -n } else { n };
    let d_abs: i128 = if d < 0 { -d } else { d };
    let q: i128 = n_abs / d_abs;
    proof {
        lemma_fundamental_div_mod(n_abs as int, d_abs as int);
        assert(0 <= q <= n_abs) by (nonlinear_arith)
            requires
                n_abs == d_abs * q + (n_abs % d_abs),
                0 <= n_abs % d_abs,
                d_abs >= 1,
                n_abs >= 0,
        ;
    }
    if (n >= 0) == (d > 0) {
        q
    } else {
        -q
    }
}

/// Multiplies two quantities, one of them a count of millionths.
pub(crate) fn multiply(a: i64, b: i64) -> (r: i128)
    ensures
        r == scaled_product(a as int, b as int),
{
    let wide_a: i128 = a as i128;
    let wide_b: i128 = b as i128;
    proof {
        assert(-0x4000_0000_0000_0000_0000_0000_0000_0000 <= wide_a * wide_b
            <= 0x4000_0000_0000_0000_0000_0000_0000_0000) by (nonlinear_arith)
            requires
                -0x8000_0000_0000_0000 <= wide_a <= 0x8000_0000_0000_0000,
                -0x8000_0000_0000_0000 <= wide_b <= 0x8000_0000_0000_0000,
        ;
    }
    divide(wide_a * wide_b, SCALE as i128)
}

/// The quotient up to which `mul_div_wide` is exact, two to the 113th.
pub const WIDE_CAP: u128 = 0x2_0000_0000_0000_0000_0000_0000_0000;

/// The quotient of a non-negative `n` by a positive `d`, rounded down and
/// held at `WIDE_CAP`.
pub open spec fn wide_quotient(n: int, d: int) -> int
    recommends
        n >= 0,
        d > 0,
{
    if n / d >= WIDE_CAP {
        WIDE_CAP as int
    } else {
        n / d
    }
}

/// The weight of byte `i` of a number, counted from the lowest: 256 to the
/// `i`th.
pub open spec fn byte_weight(i: nat) -> int
    decreases i,
{
    if i == 0 {
        1
    } else {
        256 * byte_weight((i - 1) as nat)
    }
}

/// A numerator of at least `bound * d` has a quotient of at least `bound`.
proof fn lemma_quotient_reaches(n: int, d: int, bound: int)
    requires
        d > 0,
        n >= bound * d,
    ensures
        n / d >= bound,
{
    lemma_fundamental_div_mod(n, d);
    assert(n / d >= bound) by (nonlinear_arith)
        requires
            n == d * (n / d) + n % d,
            0 <= n % d < d,
            n >= bound * d,
            d > 0,
    ;
}

/// The quotient `a * b / d` rounded down, held at `WIDE_CAP` where it would
/// exceed it. The product may need far more than 128 bits: `b` is taken a
/// byte at a time from the top, as in long division.
pub(crate) fn mul_div_wide(a: u128, b: u128, d: u128) -> (q: u128)
    requires
        a < 0x10_0000_0000_0000_0000_0000_0000,
        0 < d < 0x80_0000_0000_0000_0000_0000_0000_0000,
    ensures
        q == wide_quotient(a * b, d as int),
{
    proof {
        reveal_with_fuel(byte_weight, 16);
    }
    let mut weight: u128 = 0x100_0000_0000_0000_0000_0000_0000_0000;
    let top: u128 = b / weight;
    let mut rest: u128 = b % weight;
    proof {
        assert(a * top < 0x10_0000_0000_0000_0000_0000_0000 * 256) by (nonlinear_arith)
            requires
                a < 0x10_0000_0000_0000_0000_0000_0000,
                top < 256,
        ;
        lemma_fundamental_div_mod((a * top) as int, d as int);
    }
    let mut quotient: u128 = (a * top) / d;
    let mut remainder: u128 = (a * top) % d;
    let mut capped: bool = false;
    let ghost mut prefix: int = top as int;
    proof {
        let first: int = a * top;
        assert(first == quotient * d + remainder && quotient <= first) by (nonlinear_arith)
            requires
                first == d * quotient + remainder,
                remainder >= 0,
                quotient >= 0,
                d >= 1,
        ;
        assert(b == prefix * weight + rest) by (nonlinear_arith)
            requires
                b == weight * top + rest,
                prefix == top,
        ;
    }
    let mut place: usize = 15;
    while place > 0
        invariant
            a < 0x10_0000_0000_0000_0000_0000_0000,
            0 < d < 0x80_0000_0000_0000_0000_0000_0000_0000,
            place <= 15,
            weight == byte_weight(place as nat),
            0 <= rest < weight,
            0 <= prefix,
            b == prefix * weight + rest,
            !capped ==> a * prefix == quotient * d + remainder && remainder < d && quotient
                < WIDE_CAP,
            capped ==> a * prefix >= WIDE_CAP * d,
        decreases place,
    {
        proof {
            reveal_with_fuel(byte_weight, 2);
        }
        let below: u128 = weight / 256;
        let byte: u128 = rest / below;
        let ghost longer: int = prefix * 256 + byte;
        proof {
            assert(below == byte_weight((place - 1) as nat));
            assert(weight == 256 * below);
            lemma_fundamental_div_mod(rest as int, below as int);
            assert(byte < 256 && longer * below + rest % below == prefix * weight + rest)
                by (nonlinear_arith)
                requires
                    rest == below * byte + rest % below,
                    0 <= rest % below < below,
                    rest < weight,
                    weight == 256 * below,
                    below > 0,
                    byte >= 0,
                    longer == prefix * 256 + byte,
            ;
            assert(a * longer >= a * prefix) by (nonlinear_arith)
                requires
                    longer >= prefix,
                    a >= 0,
            ;
        }
        if !capped {
            proof {
                assert(remainder * 256 < 0x80_0000_0000_0000_0000_0000_0000_0000 * 256
                    && a * byte < 0x10_0000_0000_0000_0000_0000_0000 * 256) by (nonlinear_arith)
                    requires
                        remainder < d,
                        d < 0x80_0000_0000_0000_0000_0000_0000_0000,
                        a < 0x10_0000_0000_0000_0000_0000_0000,
                        byte < 256,
                ;
            }
            let taken: u128 = remainder * 256 + a * byte;
            let step: u128 = taken / d;
            proof {
                lemma_fundamental_div_mod(taken as int, d as int);
                assert(step <= taken) by (nonlinear_arith)
                    requires
                        taken == d * step + taken % d,
                        0 <= taken % d,
                        d >= 1,
                        step >= 0,
                ;
                assert(a * longer == (quotient * 256 + step) * d + taken % d) by (nonlinear_arith)
                    requires
                        a * prefix == quotient * d + remainder,
                        longer == prefix * 256 + byte,
                        taken == remainder * 256 + a * byte,
                        taken == d * step + taken % d,
                ;
            }
            quotient = quotient * 256 + step;
            remainder = taken % d;
            if quotient >= WIDE_CAP {
                proof {
                    assert(a * longer >= WIDE_CAP * d) by (nonlinear_arith)
                        requires
                            a * longer == quotient * d + remainder,
                            quotient >= WIDE_CAP,
                            remainder >= 0,
                            d > 0,
                    ;
                }
                capped = true;
            }
        }
        rest = rest % below;
        weight = below;
        place -= 1;
        proof {
            prefix = longer;
        }
    }
    proof {
        assert(weight == 1);
        assert(b == prefix);
        if capped {
            lemma_quotient_reaches(a * b, d as int, WIDE_CAP as int);
        } else {
            lemma_fundamental_div_mod_converse(
                a * b,
                d as int,
                quotient as int,
                remainder as int,
            );
        }
    }
    if capped {
        WIDE_CAP
    } else {
        quotient
    }
}

} // verus!
