//! The rubber band: the resistance that a view offers to a drag past its
//! edge. A drag of any distance is compressed into less than `range`, and
//! the compression can be undone to recover the distance that was dragged.
//!
//! Close to `range` a compressed offset says very much about the drag in
//! very little room: a millionth of a point there stands for whole points
//! of drag. The compressed offset is therefore counted in a finer unit than
//! everything else, `FINE` to the millionth, and it is in that unit that it
//! goes from `calculate_offset` to `calculate_offset_inv`.

use vstd::prelude::*;
use vstd::arithmetic::div_mod::lemma_div_denominator;
use vstd::arithmetic::div_mod::lemma_div_is_ordered;
use vstd::arithmetic::div_mod::lemma_fundamental_div_mod;
use crate::fixed::SCALE;
use crate::fixed::WIDE_CAP;
use crate::fixed::divide;
use crate::fixed::magnitude;
use crate::fixed::mul_div_wide;
use crate::fixed::ratio;
use crate::fixed::saturate;
use crate::fixed::saturated;

verus! {

/// The stiffness of the band, 0.55.
pub const COEFFICIENT: i64 = 550_000;

/// The units of a compressed offset in one millionth of a point.
pub const FINE: i128 = 1_000_000_000_000_000;

/// The least distance kept between a compressed offset and `range` before
/// the compression is undone, a hundred-thousandth of a point. At `range`
/// itself the inverse has a pole; the margin keeps it finite. It is there
/// for numerical stability and carries no other meaning.
pub const EPSILON: i64 = 10;

/// The largest error, a hundredth of a point, that undoing a compression
/// makes while the compressed offset keeps the margin `EPSILON` to `range`.
pub const TOLERANCE: i64 = 10_000;

/// The range, 20 000 points, up to which the margin alone keeps the error
/// of undoing a compression within `TOLERANCE`; beyond it the width of the
/// numbers does.
const WIDE_RANGE: i64 = 20_000_000_000;

/// `offset` millionths in the unit of compressed offsets.
pub open spec fn fine(offset: int) -> int {
    offset * FINE
}

/// A compressed offset in millionths, rounded toward zero and held inside
/// the 64-bit range.
pub open spec fn coarse(offset: int) -> int {
    saturated(ratio(offset, FINE as int))
}

/// The offset shown for a drag of `offset` past the edge of a view whose
/// extent is `range`: `range * (1 - 1 / (offset / range * 0.55 + 1))`, in
/// the unit of compressed offsets and rounded down. A negative `offset` or
/// a `range` that is not positive gives 0.
pub open spec fn compressed(offset: int, range: int) -> int {
    if offset < 0 || range <= 0 {
        0
    } else {
        (COEFFICIENT * offset * range * FINE) / (COEFFICIENT * offset + SCALE * range)
    }
}

/// The compressed `offset` kept at least `EPSILON` below `range`.
pub open spec fn clamped(offset: int, range: int) -> int {
    if offset < (range - EPSILON) * FINE {
        offset
    } else {
        (range - EPSILON) * FINE
    }
}

/// The drag that a compressed offset of `offset` stands for:
/// `range * c / (range - c) / 0.55` with `c` the clamped offset, rounded
/// toward zero and held inside the 64-bit range. A negative `offset` or
/// `range` gives 0.
pub open spec fn expanded(offset: int, range: int) -> int {
    if offset < 0 || range < 0 {
        0
    } else {
        let c = clamped(offset, range);
        saturated(ratio(SCALE * range * c, COEFFICIENT * (range * FINE - c)))
    }
}

/// The compressed offset that stands for `offset` millionths of a point.
pub fn to_fine(offset: i64) -> (compressed: i128)
    ensures
        compressed == fine(offset as int),
{
    proof {
        lemma_fine_fits(offset as int);
    }
    (offset as i128) * FINE
}

/// A compressed offset to the millionth of a point, as it is shown.
pub fn from_fine(compressed: i128) -> (offset: i64)
    ensures
        offset == coarse(compressed as int),
{
    if compressed == i128::MIN {
        // Beyond every distance: the quotient lies far below the range.
        proof {
            lemma_div_is_ordered(
                0x7000_0000_0000_0000_0000_0000_0000_0000,
                magnitude(compressed as int),
                FINE as int,
            );
        }
        return i64::MIN;
    }
    saturate(divide(compressed, FINE))
}

/// Compresses a drag of `offset` past the edge into less than `range`. The
/// result is in the unit of compressed offsets; `from_fine` gives it to the
/// millionth.
pub fn calculate_offset(offset: i64, range: i64) -> (shown: i128)
    ensures
        shown == compressed(offset as int, range as int),
{
    if offset < 0 || range <= 0 {
        return 0;
    }
    proof {
        lemma_scaled_fits(COEFFICIENT as int, offset as int);
        lemma_scaled_fits(SCALE as int, range as int);
        lemma_fine_fits(range as int);
    }
    let weighted: u128 = (COEFFICIENT as u128) * (offset as u128);
    let denominator: u128 = weighted + (SCALE as u128) * (range as u128);
    let extent: u128 = (range as u128) * (FINE as u128);
    let quotient: u128 = mul_div_wide(weighted, extent, denominator);
    proof {
        lemma_compressed_below_range(offset as int, range as int);
        assert(weighted * extent == COEFFICIENT * offset * range * FINE) by (nonlinear_arith)
            requires
                weighted == COEFFICIENT * offset,
                extent == range * FINE,
        ;
    }
    quotient as i128
}

/// Recovers the drag from the compressed offset that `calculate_offset`
/// gave for it.
pub fn calculate_offset_inv(offset: i128, range: i64) -> (drag: i64)
    ensures
        drag == expanded(offset as int, range as int),
{
    if offset < 0 || range < 0 {
        return 0;
    }
    proof {
        lemma_fine_fits(range as int);
        lemma_fine_fits(range - EPSILON);
        lemma_scaled_fits(SCALE as int, range as int);
    }
    let limit: i128 = (range as i128 - EPSILON as i128) * FINE;
    let c: i128 = if offset < limit {
        offset
    } else {
        limit
    };
    let gap: i128 = (range as i128) * FINE - c;
    let numerator: u128 = (SCALE as u128) * (range as u128);
    let c_abs: u128 = if c < 0 {
        (-c) as u128
    } else {
        c as u128
    };
    let over_gap: u128 = mul_div_wide(numerator, c_abs, gap as u128);
    let quotient: u128 = over_gap / (COEFFICIENT as u128);
    proof {
        let top = SCALE * range * c;
        let bottom = COEFFICIENT * (range * FINE - c);
        assert(gap >= EPSILON * FINE) by (nonlinear_arith)
            requires
                gap == range * FINE - c,
                c <= (range - EPSILON) * FINE,
        ;
        assert(numerator * c_abs == magnitude(top)) by (nonlinear_arith)
            requires
                numerator == SCALE * range,
                c_abs == magnitude(c as int),
                top == SCALE * range * c,
                range >= 0,
        ;
        assert(bottom == gap * COEFFICIENT && bottom > 0) by (nonlinear_arith)
            requires
                bottom == COEFFICIENT * (range * FINE - c),
                gap == range * FINE - c,
                gap > 0,
        ;
        assert((top >= 0) == (c >= 0 || range == 0)) by (nonlinear_arith)
            requires
                top == SCALE * range * c,
                range >= 0,
        ;
        if range == 0 {
            assert(top == 0) by (nonlinear_arith)
                requires
                    top == SCALE * range * c,
                    range == 0,
            ;
        }
        // Dividing by the gap and then by the stiffness is dividing by both.
        lemma_div_denominator(magnitude(top), gap as int, COEFFICIENT as int);
        if magnitude(top) / (gap as int) >= WIDE_CAP {
            lemma_div_is_ordered(
                WIDE_CAP as int,
                magnitude(top) / (gap as int),
                COEFFICIENT as int,
            );
        }
        if c < 0 {
            lemma_small_against_the_clamp(range as int, c as int);
        }
    }
    if c < 0 {
        -(quotient as i64)
    } else if quotient > i64::MAX as u128 {
        i64::MAX
    } else {
        quotient as i64
    }
}

/// A factor of at most one times a 64-bit quantity takes less than 84 bits.
proof fn lemma_scaled_fits(factor: int, x: int)
    requires
        0 <= factor <= SCALE,
        0 <= x <= 0x8000_0000_0000_0000,
    ensures
        0 <= factor * x <= 0x8_0000_0000_0000_0000_0000,
        x > 0 && factor > 0 ==> factor * x > 0,
{
    assert(0 <= factor * x <= SCALE * 0x8000_0000_0000_0000) by (nonlinear_arith)
        requires
            0 <= factor <= SCALE,
            0 <= x <= 0x8000_0000_0000_0000,
    ;
    assert(x > 0 && factor > 0 ==> factor * x > 0) by (nonlinear_arith);
}

/// A 64-bit quantity in the unit of compressed offsets stays below
/// `WIDE_CAP`.
proof fn lemma_fine_fits(x: int)
    requires
        -0x8000_0000_0000_0000 - 10 <= x <= 0x8000_0000_0000_0000,
    ensures
        -(WIDE_CAP as int) < x * FINE < WIDE_CAP,
        x >= 0 ==> x * FINE >= 0,
        x > 0 ==> x * FINE > 0,
{
    assert(-(0x8000_0000_0000_0000 + 10) * 1_000_000_000_000_000 <= x * FINE
        <= 0x8000_0000_0000_0000 * 1_000_000_000_000_000 && (x >= 0 ==> x * FINE >= 0) && (x > 0
        ==> x * FINE > 0)) by (nonlinear_arith)
        requires
            -0x8000_0000_0000_0000 - 10 <= x <= 0x8000_0000_0000_0000,
            FINE == 1_000_000_000_000_000,
    ;
}

/// A compressed offset is never negative and stays below `range`.
pub(crate) proof fn lemma_compressed_below_range(offset: int, range: int)
    requires
        offset >= 0,
        range > 0,
    ensures
        0 <= compressed(offset, range) < range * FINE,
{
    let n = COEFFICIENT * offset * range * FINE;
    let d = COEFFICIENT * offset + SCALE * range;
    lemma_fundamental_div_mod(n, d);
    assert(0 <= n / d < range * FINE) by (nonlinear_arith)
        requires
            n == COEFFICIENT * offset * range * FINE,
            d == COEFFICIENT * offset + SCALE * range,
            n == d * (n / d) + n % d,
            0 <= n % d < d,
            offset >= 0,
            range > 0,
            FINE > 0,
    ;
}

/// A compressed offset never exceeds the drag.
pub(crate) proof fn lemma_compressed_within_drag(offset: int, range: int)
    requires
        offset >= 0,
        range > 0,
    ensures
        compressed(offset, range) <= offset * FINE,
{
    let n = COEFFICIENT * offset * range * FINE;
    let d = COEFFICIENT * offset + SCALE * range;
    lemma_fundamental_div_mod(n, d);
    assert(n / d <= offset * FINE) by (nonlinear_arith)
        requires
            n == COEFFICIENT * offset * range * FINE,
            d == COEFFICIENT * offset + SCALE * range,
            n == d * (n / d) + n % d,
            0 <= n % d < d,
            offset >= 0,
            range > 0,
            FINE > 0,
            COEFFICIENT == 550_000,
            SCALE == 1_000_000,
    ;
}

/// A compressed offset below `bound` millionths is shown below `bound`.
pub(crate) proof fn lemma_coarse_below(offset: int, bound: int)
    requires
        0 <= offset < bound * FINE,
        bound <= i64::MAX,
    ensures
        0 <= coarse(offset) < bound,
        coarse(offset) == offset / (FINE as int),
{
    lemma_fundamental_div_mod(offset, FINE as int);
    assert(0 <= offset / (FINE as int) < bound) by (nonlinear_arith)
        requires
            offset == FINE * (offset / (FINE as int)) + offset % (FINE as int),
            0 <= offset % (FINE as int) < FINE,
            0 <= offset < bound * FINE,
    ;
}

/// Compression is monotonic: a longer drag never gives a smaller offset.
pub proof fn lemma_compress_monotonic(shorter: i64, longer: i64, range: i64)
    requires
        shorter <= longer,
    ensures
        compressed(shorter as int, range as int) <= compressed(longer as int, range as int),
{
    if range > 0 && longer >= 0 {
        lemma_compressed_below_range(longer as int, range as int);
        if shorter >= 0 {
            lemma_compressed_below_range(shorter as int, range as int);
            let c = compressed(shorter as int, range as int);
            let n1 = COEFFICIENT * shorter * range * FINE;
            let d1 = COEFFICIENT * shorter + SCALE * range;
            let n2 = COEFFICIENT * longer * range * FINE;
            let d2 = COEFFICIENT * longer + SCALE * range;
            lemma_fundamental_div_mod(n1, d1);
            lemma_fundamental_div_mod(n2, d2);
            assert(c * d2 <= n2) by (nonlinear_arith)
                requires
                    n1 == COEFFICIENT * shorter * range * FINE,
                    d1 == COEFFICIENT * shorter + SCALE * range,
                    n2 == COEFFICIENT * longer * range * FINE,
                    d2 == COEFFICIENT * longer + SCALE * range,
                    n1 == d1 * c + n1 % d1,
                    0 <= n1 % d1,
                    0 <= c < range * FINE,
                    0 <= shorter <= longer,
            ;
            assert(c <= n2 / d2) by (nonlinear_arith)
                requires
                    c * d2 <= n2,
                    n2 == d2 * (n2 / d2) + n2 % d2,
                    0 <= n2 % d2 < d2,
            ;
        }
    }
}

/// Compression is bounded: whatever the drag, the compressed offset stays
/// below `range`, it is never negative, and it never exceeds the drag.
pub proof fn lemma_compress_bounded(offset: i64, range: i64)
    requires
        range > 0,
    ensures
        0 <= compressed(offset as int, range as int) < fine(range as int),
        offset >= 0 ==> compressed(offset as int, range as int) <= fine(offset as int),
        0 <= coarse(compressed(offset as int, range as int)) < range,
{
    if offset >= 0 {
        lemma_compressed_below_range(offset as int, range as int);
        lemma_compressed_within_drag(offset as int, range as int);
    }
    lemma_fine_fits(range as int);
    lemma_coarse_below(compressed(offset as int, range as int), range as int);
}

/// Compression approaches `range`: however small a gap to `range` is
/// asked for, a drag that is long enough is compressed to within it.
pub proof fn lemma_compress_approaches_range(offset: i64, range: i64, gap: int)
    requires
        offset >= 0,
        range > 0,
        gap > 0,
        gap * (COEFFICIENT * offset) >= SCALE * range * (range * FINE - gap),
    ensures
        fine(range as int) - gap <= compressed(offset as int, range as int) < fine(range as int),
{
    lemma_compressed_below_range(offset as int, range as int);
    let n = COEFFICIENT * offset * range * FINE;
    let d = COEFFICIENT * offset + SCALE * range;
    let below = range * FINE - gap;
    lemma_fundamental_div_mod(n, d);
    assert(below * d <= n) by (nonlinear_arith)
        requires
            n == COEFFICIENT * offset * range * FINE,
            d == COEFFICIENT * offset + SCALE * range,
            gap * (COEFFICIENT * offset) >= SCALE * range * below,
            below == range * FINE - gap,
    ;
    assert(below <= n / d) by (nonlinear_arith)
        requires
            below * d <= n,
            n == d * (n / d) + n % d,
            0 <= n % d < d,
    ;
}

/// In particular, a drag that is long enough is shown one millionth of a
/// point below `range`, the closest that an offset shown below `range` can
/// come.
pub proof fn lemma_compress_reaches_range(offset: i64, range: i64)
    requires
        offset >= 0,
        range > 0,
        COEFFICIENT * offset >= SCALE * range * (range - 1),
    ensures
        coarse(compressed(offset as int, range as int)) == range - 1,
{
    let c = compressed(offset as int, range as int);
    assert(FINE * (COEFFICIENT * offset) >= SCALE * range * (range * FINE - FINE))
        by (nonlinear_arith)
        requires
            COEFFICIENT * offset >= SCALE * range * (range - 1),
            FINE > 0,
    ;
    lemma_compress_approaches_range(offset, range, FINE as int);
    lemma_fine_fits(range as int);
    lemma_coarse_below(c, range as int);
    lemma_fundamental_div_mod(c, FINE as int);
    assert(c / (FINE as int) >= range - 1) by (nonlinear_arith)
        requires
            c == FINE * (c / (FINE as int)) + c % (FINE as int),
            0 <= c % (FINE as int) < FINE,
            c >= range * FINE - FINE,
    ;
}

/// Undoing a compression never overshoots the drag, and falls short of it
/// by less than `d * d / (0.55 * range * range * FINE) + 1` millionths,
/// where `d = 0.55 * offset + range`. This holds wherever the compressed
/// offset stays clear of the clamp's margin.
pub proof fn lemma_expand_inverts_compress(offset: i64, range: i64)
    requires
        offset >= 0,
        range > 0,
        compressed(offset as int, range as int) <= fine(range - EPSILON),
    ensures
        expanded(compressed(offset as int, range as int), range as int) <= offset,
        (offset - expanded(compressed(offset as int, range as int), range as int) - 1) * (
        COEFFICIENT * SCALE * FINE * range * range) < (COEFFICIENT * offset + SCALE * range) * (
        COEFFICIENT * offset + SCALE * range),
{
    let o = offset as int;
    let r = range as int;
    let e = lemma_round_trip_quotient(o, r);
    let d = COEFFICIENT * o + SCALE * r;
    let b = o - e - 1;
    assert(d > 0) by (nonlinear_arith)
        requires
            d == COEFFICIENT * o + SCALE * r,
            o >= 0,
            r > 0,
    ;
    if b >= 0 {
        if b * (COEFFICIENT * SCALE * FINE * r * r) >= d * d {
            lemma_round_trip_shortfall(o, r, b);
        }
    } else {
        assert(b * (COEFFICIENT * SCALE * FINE * r * r) <= 0) by (nonlinear_arith)
            requires
                b < 0,
                r > 0,
        ;
        assert(d * d > 0) by (nonlinear_arith)
            requires
                d > 0,
        ;
    }
}

/// Clear of the clamp, undoing a compression recovers the drag to within
/// `TOLERANCE` where the square of `0.55 * offset + range` does not exceed
/// `TOLERANCE * FINE` times `0.55 * range * range`.
proof fn lemma_round_trip_within_tolerance(offset: i64, range: i64)
    requires
        offset >= 0,
        range > 0,
        compressed(offset as int, range as int) <= fine(range - EPSILON),
        (COEFFICIENT * offset + SCALE * range) * (COEFFICIENT * offset + SCALE * range)
            <= TOLERANCE * (COEFFICIENT * SCALE * FINE * range * range),
    ensures
        offset - TOLERANCE <= expanded(compressed(offset as int, range as int), range as int)
            <= offset,
{
    let e = lemma_round_trip_quotient(offset as int, range as int);
    lemma_round_trip_shortfall(offset as int, range as int, TOLERANCE as int);
}

/// Undoing a compression recovers the drag to within `TOLERANCE`, a
/// hundredth of a point, wherever the compressed offset stays clear of the
/// clamp's margin: whatever the drag and whatever the range.
pub proof fn lemma_round_trip_clear_of_the_clamp(offset: i64, range: i64)
    requires
        offset >= 0,
        range > 0,
        compressed(offset as int, range as int) <= fine(range - EPSILON),
    ensures
        offset - TOLERANCE <= expanded(compressed(offset as int, range as int), range as int)
            <= offset,
{
    if range <= WIDE_RANGE {
        lemma_round_trip_on_a_short_range(offset, range);
    } else {
        // On a long range no drag is long enough to matter.
        let d = COEFFICIENT * offset + SCALE * range;
        assert(0 < d <= 261_000_000_000_000 * range) by (nonlinear_arith)
            requires
                d == COEFFICIENT * offset + SCALE * range,
                0 <= offset <= 0x7fff_ffff_ffff_ffff,
                range > 20_000_000_000,
                COEFFICIENT == 550_000,
                SCALE == 1_000_000,
        ;
        assert(d * d <= TOLERANCE * (COEFFICIENT * SCALE * FINE * range * range))
            by (nonlinear_arith)
            requires
                0 < d <= 261_000_000_000_000 * range,
                range > 0,
                SCALE == 1_000_000,
                COEFFICIENT == 550_000,
                TOLERANCE == 10_000,
                FINE == 1_000_000_000_000_000,
        ;
        lemma_round_trip_within_tolerance(offset, range);
    }
}

/// On a range of up to `WIDE_RANGE` the margin alone keeps the error
/// within `TOLERANCE`, however long the drag.
proof fn lemma_round_trip_on_a_short_range(offset: i64, range: i64)
    requires
        offset >= 0,
        0 < range <= WIDE_RANGE,
        compressed(offset as int, range as int) <= fine(range - EPSILON),
    ensures
        offset - TOLERANCE <= expanded(compressed(offset as int, range as int), range as int)
            <= offset,
{
    let o = offset as int;
    let r = range as int;
    let c = compressed(o, r);
    let n = COEFFICIENT * o * r * FINE;
    let d = COEFFICIENT * o + SCALE * r;
    lemma_compressed_below_range(o, r);
    lemma_fundamental_div_mod(n, d);
    assert(d > 0) by (nonlinear_arith)
        requires
            d == COEFFICIENT * o + SCALE * r,
            o >= 0,
            r > 0,
    ;
    // The gap to `range`, times `d`, is less than `range * range` and `d`.
    assert((r * FINE - c) * d < SCALE * r * r * FINE + d) by (nonlinear_arith)
        requires
            n == COEFFICIENT * o * r * FINE,
            d == COEFFICIENT * o + SCALE * r,
            n == d * c + n % d,
            n % d < d,
    ;
    // The gap is at least the margin, so `d` is small against the range.
    assert(9 * d < SCALE * r * r) by (nonlinear_arith)
        requires
            (r * FINE - c) * d < SCALE * r * r * FINE + d,
            c <= (r - EPSILON) * FINE,
            EPSILON == 10,
            FINE == 1_000_000_000_000_000,
            d > 0,
            r > 0,
    ;
    assert(81 * (d * d) < (SCALE * r * r) * (SCALE * r * r)) by (nonlinear_arith)
        requires
            9 * d < SCALE * r * r,
            d > 0,
    ;
    assert((SCALE * r * r) * (SCALE * r * r) <= 81 * (TOLERANCE * (COEFFICIENT * SCALE * FINE * r
        * r))) by (nonlinear_arith)
        requires
            0 < r <= 20_000_000_000,
            SCALE == 1_000_000,
            COEFFICIENT == 550_000,
            TOLERANCE == 10_000,
            FINE == 1_000_000_000_000_000,
    ;
    lemma_round_trip_within_tolerance(offset, range);
}

/// Clear of the clamp, the inverse of a compressed offset is the plain
/// quotient, and it does not exceed the drag.
proof fn lemma_round_trip_quotient(o: int, r: int) -> (e: int)
    requires
        0 <= o <= i64::MAX,
        r > 0,
        compressed(o, r) <= fine(r - EPSILON),
    ensures
        e == expanded(compressed(o, r), r),
        e == (SCALE * r * compressed(o, r)) / (COEFFICIENT * (r * FINE - compressed(o, r))),
        0 <= e <= o,
{
    let c = compressed(o, r);
    let n = COEFFICIENT * o * r * FINE;
    let d = COEFFICIENT * o + SCALE * r;
    lemma_compressed_below_range(o, r);
    lemma_fundamental_div_mod(n, d);
    let top = SCALE * r * c;
    let bottom = COEFFICIENT * (r * FINE - c);
    assert(top >= 0 && bottom > 0) by (nonlinear_arith)
        requires
            top == SCALE * r * c,
            bottom == COEFFICIENT * (r * FINE - c),
            r > 0,
            c >= 0,
            r * FINE - c > 0,
    ;
    let e = top / bottom;
    lemma_fundamental_div_mod(top, bottom);
    assert(0 <= e <= o) by (nonlinear_arith)
        requires
            top == SCALE * r * c,
            bottom == COEFFICIENT * (r * FINE - c),
            top == bottom * e + top % bottom,
            0 <= top % bottom < bottom,
            n == COEFFICIENT * o * r * FINE,
            d == COEFFICIENT * o + SCALE * r,
            n == d * c + n % d,
            0 <= n % d,
            top >= 0,
            bottom > 0,
            o >= 0,
            r * FINE - c > 0,
    ;
    assert(clamped(c, r) == c);
    assert(ratio(top, bottom) == e);
    e
}

/// Clear of the clamp, the inverse of a compressed offset falls short of
/// the drag by at most `bound`, for any `bound` that, multiplied by
/// `0.55 * range * range * FINE`, reaches the square of
/// `0.55 * offset + range`.
proof fn lemma_round_trip_shortfall(o: int, r: int, bound: int)
    requires
        0 <= o <= i64::MAX,
        r > 0,
        compressed(o, r) <= fine(r - EPSILON),
        bound >= 0,
        bound * (COEFFICIENT * SCALE * FINE * r * r) >= (COEFFICIENT * o + SCALE * r) * (
        COEFFICIENT * o + SCALE * r),
    ensures
        expanded(compressed(o, r), r) >= o - bound,
{
    let c = compressed(o, r);
    let e = lemma_round_trip_quotient(o, r);
    let n = COEFFICIENT * o * r * FINE;
    let d = COEFFICIENT * o + SCALE * r;
    lemma_compressed_below_range(o, r);
    lemma_fundamental_div_mod(n, d);
    let m = n % d;
    let top = SCALE * r * c;
    let gap = r * FINE - c;
    let bottom = COEFFICIENT * gap;
    lemma_fundamental_div_mod(top, bottom);
    assert(d > 0) by (nonlinear_arith)
        requires
            d == COEFFICIENT * o + SCALE * r,
            o >= 0,
            r > 0,
    ;
    // The gap to `range` times `d` is at least `range * range`.
    assert(gap * d >= SCALE * r * r * FINE) by (nonlinear_arith)
        requires
            n == COEFFICIENT * o * r * FINE,
            d == COEFFICIENT * o + SCALE * r,
            n == d * c + m,
            0 <= m,
            gap == r * FINE - c,
    ;
    assert((COEFFICIENT * bound * gap) * d >= d * d) by (nonlinear_arith)
        requires
            gap * d >= SCALE * r * r * FINE,
            bound * (COEFFICIENT * SCALE * FINE * r * r) >= d * d,
            bound >= 0,
            COEFFICIENT > 0,
    ;
    assert(COEFFICIENT * bound * gap >= d) by (nonlinear_arith)
        requires
            (COEFFICIENT * bound * gap) * d >= d * d,
            d > 0,
    ;
    assert(top - bottom * (o - bound) == COEFFICIENT * bound * gap - m) by (nonlinear_arith)
        requires
            top == SCALE * r * c,
            bottom == COEFFICIENT * gap,
            gap == r * FINE - c,
            n == COEFFICIENT * o * r * FINE,
            d == COEFFICIENT * o + SCALE * r,
            n == d * c + m,
    ;
    assert(bottom > 0) by (nonlinear_arith)
        requires
            bottom == COEFFICIENT * gap,
            gap > 0,
    ;
    assert(e >= o - bound) by (nonlinear_arith)
        requires
            top - bottom * (o - bound) >= 0,
            top == bottom * e + top % bottom,
            0 <= top % bottom < bottom,
            bottom > 0,
    ;
}

/// Below the clamp's margin the inverse stays within a few units of zero.
proof fn lemma_small_against_the_clamp(range: int, c: int)
    requires
        0 <= range < EPSILON,
        c == (range - EPSILON) * FINE,
    ensures
        (SCALE * range * (-c)) / (range * FINE - c) <= SCALE * 10,
{
    let n = SCALE * range * (-c);
    let d = range * FINE - c;
    assert(d == EPSILON * FINE && n == SCALE * range * (EPSILON - range) * FINE)
        by (nonlinear_arith)
        requires
            d == range * FINE - c,
            n == SCALE * range * (-c),
            c == (range - EPSILON) * FINE,
    ;
    lemma_fundamental_div_mod(n, d);
    assert(n / d <= SCALE * 10) by (nonlinear_arith)
        requires
            n == d * (n / d) + n % d,
            0 <= n % d,
            d == EPSILON * FINE,
            n == SCALE * range * (EPSILON - range) * FINE,
            0 <= range < 10,
            EPSILON == 10,
            FINE > 0,
            SCALE > 0,
    ;
}

} // verus!
