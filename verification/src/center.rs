//! From a coordinate to the centre of the band that holds it.
//!
//! Along each axis the integer line is cut into bands, and every coordinate of
//! a band is sent to the same representative, the band's centre. The cut is
//! made from the quotient and remainder of a division that rounds toward
//! zero, with a correction of the quotient whenever it exceeds the remainder.

use vstd::prelude::*;
use vstd::arithmetic::div_mod::{lemma_fundamental_div_mod, lemma_fundamental_div_mod_converse};
use crate::types::{Error, Point};

verus! {

/// The quotient of `x` by `d`, rounded toward zero.
pub open spec fn trunc_div(x: int, d: int) -> int {
    if x >= 0 {
        x / d
    } else {
        -((-x) / d)
    }
}

/// The remainder that goes with `trunc_div`; it has the sign of `x`.
pub open spec fn trunc_rem(x: int, d: int) -> int {
    if x >= 0 {
        x % d
    } else {
        -((-x) % d)
    }
}

/// The index of the band of `x`: the truncated quotient, lowered by one where
/// it exceeds the truncated remainder.
pub open spec fn band_index(x: int, range: int) -> int {
    let div = trunc_div(x, range);
    let rem = trunc_rem(x, range);
    if div > rem {
        div - 1
    } else {
        div
    }
}

/// The centre of the band with the given index.
pub open spec fn center_of_band(index: int, range: int) -> int {
    (range + 1) * index + range / 2
}

/// The centre of the band of `x`.
pub open spec fn band_center(x: int, range: int) -> int {
    center_of_band(band_index(x, range), range)
}

/// Whether the centre of the band of `x` is an `i32`.
pub open spec fn center_fits(x: int, range: int) -> bool {
    i32::MIN <= band_center(x, range) <= i32::MAX
}

/// What `calc_center` returns on a point: each coordinate replaced by the
/// centre of its band.
pub open spec fn region_center(point: Point, range: int) -> Point {
    Point {
        x: band_center(point.x as int, range) as i32,
        y: band_center(point.y as int, range) as i32,
    }
}

/// The truncated quotient of an `i32` by a positive size is an `i32`, and the
/// band index lies at most one below it.
proof fn lemma_band_index_bounds(x: int, range: int)
    requires
        range > 0,
        i32::MIN <= x <= i32::MAX,
    ensures
        -0x8000_0000 - 1 <= band_index(x, range) <= 0x7fff_ffff,
        -0x8000_0000 <= trunc_div(x, range) <= 0x7fff_ffff,
{
    if x >= 0 {
        assert(0 <= x / range <= x) by (nonlinear_arith)
            requires
                x >= 0,
                range > 0,
        ;
    } else {
        assert(0 <= (-x) / range <= -x) by (nonlinear_arith)
            requires
                -x >= 0,
                range > 0,
        ;
    }
}

/// Two coordinates have the same centre exactly when they lie in the same
/// band: the centre depends on the coordinate through its band alone.
pub proof fn lemma_same_band_same_center(x1: int, x2: int, range: int)
    requires
        range > 0,
    ensures
        band_index(x1, range) == band_index(x2, range) <==> band_center(x1, range) == band_center(
            x2,
            range,
        ),
{
    let k1 = band_index(x1, range);
    let k2 = band_index(x2, range);
    assert((range + 1) * k1 == (range + 1) * k2 ==> k1 == k2) by (nonlinear_arith)
        requires
            range > 0,
    ;
}

/// The centres of two adjacent bands are exactly `range + 1` apart.
pub proof fn lemma_adjacent_band_centers(x1: int, x2: int, range: int)
    requires
        range > 0,
        band_index(x2, range) == band_index(x1, range) + 1,
    ensures
        band_center(x2, range) - band_center(x1, range) == range + 1,
{
    let k = band_index(x1, range);
    assert((range + 1) * (k + 1) == (range + 1) * k + (range + 1)) by (nonlinear_arith);
}

/// Whether a band holds its own centre. Bands far from the origin do not:
/// the correction of the quotient shifts them past their centres.
pub open spec fn band_holds_center(index: int, range: int) -> bool {
    -(range + range / 2) < index < 2 * range - range / 2
}

/// The quotient and remainder of a number written as `q * d + m` with
/// `0 <= m < d`, for either sign of `q * d + m`.
proof fn lemma_trunc_div_rem(q: int, d: int, m: int)
    requires
        d > 0,
        0 <= m < d,
        q >= 0,
    ensures
        trunc_div(q * d + m, d) == q,
        trunc_rem(q * d + m, d) == m,
        trunc_div(-(q * d + m), d) == -q,
        trunc_rem(-(q * d + m), d) == -m,
{
    assert(q * d >= 0) by (nonlinear_arith)
        requires
            q >= 0,
            d > 0,
    ;
    lemma_fundamental_div_mod_converse(q * d + m, d, q, m);
}

/// A number of at least `q * d` has a quotient of at least `q`.
proof fn lemma_quotient_at_least(a: int, d: int, q: int)
    requires
        d > 0,
        q >= 0,
        a >= q * d,
    ensures
        a / d >= q,
{
    lemma_fundamental_div_mod(a, d);
    assert(a / d >= q) by (nonlinear_arith)
        requires
            d > 0,
            a >= q * d,
            a == d * (a / d) + a % d,
            a % d < d,
    ;
}

/// The centre of a band lies in that band exactly when the band is near
/// enough to the origin.
pub proof fn lemma_center_in_own_band(index: int, range: int)
    requires
        range > 0,
    ensures
        band_index(center_of_band(index, range), range) == index <==> band_holds_center(
            index,
            range,
        ),
{
    let r = range;
    let h = range / 2;
    let k = index;
    let c = center_of_band(k, r);
    if k >= 0 {
        let s = k + h;
        assert(c == k * r + s) by (nonlinear_arith)
            requires
                c == (r + 1) * k + h,
                s == k + h,
        ;
        if s < r {
            lemma_trunc_div_rem(k, r, s);
        } else if s < 2 * r {
            assert(c == (k + 1) * r + (s - r)) by (nonlinear_arith)
                requires
                    c == k * r + s,
            ;
            lemma_trunc_div_rem(k + 1, r, s - r);
        } else {
            assert(c >= (k + 2) * r) by (nonlinear_arith)
                requires
                    c == k * r + s,
                    s >= 2 * r,
            ;
            assert(c >= 0) by (nonlinear_arith)
                requires
                    c >= (k + 2) * r,
                    k >= 0,
                    r > 0,
            ;
            lemma_quotient_at_least(c, r, k + 2);
        }
    } else {
        let a = -k;
        let n = -c;
        assert(n == a * r + (a - h)) by (nonlinear_arith)
            requires
                c == (r + 1) * k + h,
                a == -k,
                n == -c,
        ;
        if a < h {
            assert(n == (a - 1) * r + (r + a - h)) by (nonlinear_arith)
                requires
                    n == a * r + (a - h),
            ;
            lemma_trunc_div_rem(a - 1, r, r + a - h);
            assert(c == -((a - 1) * r + (r + a - h)));
        } else if a - h < r {
            lemma_trunc_div_rem(a, r, a - h);
            assert(c == -(a * r + (a - h)));
            assert(n > 0) by (nonlinear_arith)
                requires
                    n == a * r + (a - h),
                    a >= 1,
                    r > 0,
                    a - h >= 0,
            ;
        } else {
            assert(n >= (a + 1) * r) by (nonlinear_arith)
                requires
                    n == a * r + (a - h),
                    a - h >= r,
            ;
            assert(n > 0) by (nonlinear_arith)
                requires
                    n >= (a + 1) * r,
                    a >= 1,
                    r > 0,
            ;
            lemma_quotient_at_least(n, r, a + 1);
            assert(trunc_div(c, r) == -(n / r));
            assert(trunc_rem(c, r) <= 0) by {
                assert(0 <= n % r);
            }
        }
    }
}

/// Applying the mapping twice gives what applying it once gives, exactly
/// for the coordinates whose band holds its own centre.
pub proof fn lemma_center_idempotent(x: int, range: int)
    requires
        range > 0,
    ensures
        band_center(band_center(x, range), range) == band_center(x, range) <==> band_holds_center(
            band_index(x, range),
            range,
        ),
{
    lemma_center_in_own_band(band_index(x, range), range);
    lemma_same_band_same_center(band_center(x, range), x, range);
}

/// The centre of the band of `x`, in sixty-four bits.
fn wide_center(x: i32, range: i32) -> (c: i64)
    requires
        range > 0,
    ensures
        c == band_center(x as int, range as int),
{
    let div: i32 = x / range;
    let rem: i32 = x % range;
    let index: i64 = if div > rem {
        div as i64 - 1
    } else {
        div as i64
    };
    let width: i64 = range as i64 + 1;
    proof {
        lemma_band_index_bounds(x as int, range as int);
        assert(-0x4000_0000_8000_0000 <= width * index <= 0x4000_0000_8000_0000)
            by (nonlinear_arith)
            requires
                1 <= width <= 0x8000_0000,
                -0x8000_0000 - 1 <= index <= 0x7fff_ffff,
        ;
    }
    let half: i64 = (range / 2) as i64;
    width * index + half
}

/// Whether `calc` may be called on these arguments: where the region size is
/// positive, the centre of the band of `x` is an `i32`.
pub fn can_calc(x: i32, range: i32) -> (b: bool)
    ensures
        b == (range > 0 ==> center_fits(x as int, range as int)),
{
    if range <= 0 {
        return true;
    }
    let c: i64 = wide_center(x, range);
    -0x8000_0000 <= c && c <= 0x7fff_ffff
}

/// Sends a coordinate to the centre of its band.
///
/// A region size that is not positive is a configuration error.
pub fn calc(x: i32, range: i32) -> (r: Result<i32, Error>)
    requires
        range > 0 ==> center_fits(x as int, range as int),
    ensures
        range <= 0 ==> r == Err::<i32, Error>(Error::ConfigurationError),
        range > 0 ==> r == Ok::<i32, Error>(band_center(x as int, range as int) as i32),
{
    if range <= 0 {
        return Err(Error::ConfigurationError);
    }
    let c: i64 = wide_center(x, range);
    Ok(c as i32)
}

/// Whether `calc_center` may be called on these arguments: `can_calc` holds
/// of both coordinates.
pub fn can_calc_center(point: Point, range: i32) -> (b: bool)
    ensures
        b == (range > 0 ==> center_fits(point.x as int, range as int) && center_fits(
            point.y as int,
            range as int,
        )),
{
    can_calc(point.x, range) && can_calc(point.y, range)
}

/// Sends a point to the centre of its region, axis by axis.
///
/// A region size that is not positive is a configuration error.
pub fn calc_center(point: Point, range: i32) -> (r: Result<Point, Error>)
    requires
        range > 0 ==> center_fits(point.x as int, range as int) && center_fits(
            point.y as int,
            range as int,
        ),
    ensures
        range <= 0 ==> r == Err::<Point, Error>(Error::ConfigurationError),
        range > 0 ==> r == Ok::<Point, Error>(region_center(point, range as int)),
{
    let x: i32 = calc(point.x, range)?;
    let y: i32 = calc(point.y, range)?;
    Ok(Point { x, y })
}

} // verus!
