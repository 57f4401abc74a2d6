//! Directions of unit length, in parts of `DIRECTION_ONE`.

use vstd::prelude::*;
use rand::rngs::StdRng;
use crate::config::{DIRECTION_ONE, DIRECTION_ROLL_RANGE};
use crate::geometry::Vec2;
use crate::rng::gen_range;

verus! {

/// The absolute value of an integer.
pub open spec fn abs(v: int) -> int {
    if v < 0 {
        -v
    } else {
        v
    }
}

/// The square of the length of a vector.
pub open spec fn norm2(v: Vec2) -> int {
    v.x * v.x + v.y * v.y
}

/// Whether `r` is the integer square root of `n`.
pub open spec fn is_isqrt(r: int, n: int) -> bool {
    0 <= r && r * r <= n < (r + 1) * (r + 1)
}

/// The integer square root: the largest `r` with `r * r <= n`.
pub fn isqrt(n: u64) -> (r: u64)
    ensures
        is_isqrt(r as int, n as int),
{
    let mut lo: u64 = 0;
    let mut hi: u64 = 0x1_0000_0000;
    assert(n < 0x1_0000_0000 * 0x1_0000_0000);
    while hi - lo > 1
        invariant
            lo < hi <= 0x1_0000_0000,
            lo * lo <= n < hi * hi,
        decreases hi - lo,
    {
        let mid: u64 = lo + (hi - lo) / 2;
        assert(mid * mid < 0x1_0000_0000 * 0x1_0000_0000) by (nonlinear_arith)
            requires
                0 <= mid < 0x1_0000_0000,
        ;
        if mid * mid <= n {
            lo = mid;
        } else {
            hi = mid;
        }
    }
    lo
}

/// Whether `r` is the component `c` of a vector of squared length `n`, scaled
/// to unit length and rounded toward zero.
pub open spec fn is_unit_component(r: int, c: int, n: int) -> bool {
    &&& c >= 0 ==> r >= 0
    &&& c <= 0 ==> r <= 0
    &&& r * r * n <= c * c * DIRECTION_ONE * DIRECTION_ONE
    &&& c * c * DIRECTION_ONE * DIRECTION_ONE < (abs(r) + 1) * (abs(r) + 1) * n
}

/// Whether `d` is the vector `(x, y)` scaled to unit length, each component
/// rounded toward zero. The vector without a direction, `(0, 0)`, points
/// straight up.
pub open spec fn is_unit_of(d: Vec2, x: int, y: int) -> bool {
    if x == 0 && y == 0 {
        d == (Vec2 { x: 0, y: DIRECTION_ONE })
    } else {
        is_unit_component(d.x as int, x, x * x + y * y) && is_unit_component(
            d.y as int,
            y,
            x * x + y * y,
        )
    }
}

/// Whether a direction has unit length up to rounding: it is no longer than
/// `DIRECTION_ONE`, and one part more on each component would be longer.
pub open spec fn is_unit_direction(d: Vec2) -> bool {
    &&& norm2(d) <= DIRECTION_ONE * DIRECTION_ONE
    &&& (abs(d.x as int) + 1) * (abs(d.x as int) + 1) + (abs(d.y as int) + 1) * (abs(d.y as int)
        + 1) > DIRECTION_ONE * DIRECTION_ONE
}

proof fn lemma_component(r: int, q: int, sq: int, n: int)
    by (nonlinear_arith)
    requires
        n > 0,
        sq >= 0,
        is_isqrt(r, q),
        q * n <= sq < (q + 1) * n,
    ensures
        r * r * n <= sq < (r + 1) * (r + 1) * n,
{
}

proof fn lemma_quotient(sq: int, n: int)
    by (nonlinear_arith)
    requires
        n > 0,
        sq >= 0,
    ensures
        (sq / n) * n <= sq < (sq / n + 1) * n,
        0 <= sq / n,
{
}

proof fn lemma_quotient_bound(c2: int, d2: int, n: int)
    by (nonlinear_arith)
    requires
        0 <= c2 <= n,
        n > 0,
        d2 >= 0,
    ensures
        (c2 * d2) / n <= d2,
{
}

proof fn lemma_root_bound(r: int, q: int, d: int)
    by (nonlinear_arith)
    requires
        is_isqrt(r, q),
        q <= d * d,
        d >= 0,
    ensures
        r <= d,
{
}

/// The magnitude of one component of the unit vector along a vector whose
/// squared length is `n` and whose component has the square `c2`.
fn unit_magnitude(c2: u128, n: u128) -> (r: u64)
    requires
        0 < n <= 0x8000_0000_0000_0000,
        c2 <= n,
    ensures
        r <= DIRECTION_ONE,
        c2 == 0 ==> r == 0,
        r * r * n <= c2 * DIRECTION_ONE * DIRECTION_ONE,
        c2 * DIRECTION_ONE * DIRECTION_ONE < (r + 1) * (r + 1) * n,
{
    let one2: u128 = (DIRECTION_ONE as u128) * (DIRECTION_ONE as u128);
    assert(c2 * one2 <= 0x8000_0000_0000_0000 * 1_000_000_000_000) by (nonlinear_arith)
        requires
            0 <= c2 <= 0x8000_0000_0000_0000,
            one2 == 1_000_000_000_000,
    ;
    let scaled: u128 = c2 * one2;
    let q: u128 = scaled / n;
    proof {
        lemma_quotient(scaled as int, n as int);
        lemma_quotient_bound(c2 as int, one2 as int, n as int);
    }
    let r = isqrt(q as u64);
    proof {
        lemma_component(r as int, q as int, scaled as int, n as int);
        lemma_root_bound(r as int, q as int, DIRECTION_ONE as int);
        assert(c2 * DIRECTION_ONE * DIRECTION_ONE == scaled) by (nonlinear_arith)
            requires
                scaled == c2 * one2,
                one2 == DIRECTION_ONE * DIRECTION_ONE,
        ;
        assert(scaled == 0 ==> r == 0) by (nonlinear_arith)
            requires
                r * r * n <= scaled,
                n > 0,
                r >= 0,
        ;
    }
    r
}

/// The direction of the vector `(x, y)`: the vector scaled to unit length,
/// each component rounded toward zero.
pub fn unit_direction(x: i32, y: i32) -> (d: Vec2)
    ensures
        is_unit_of(d, x as int, y as int),
{
    if x == 0 && y == 0 {
        return Vec2 { x: 0, y: DIRECTION_ONE };
    }
    let ax: u128 = if x < 0 {
        (-(x as i64)) as u128
    } else {
        x as u128
    };
    let ay: u128 = if y < 0 {
        (-(y as i64)) as u128
    } else {
        y as u128
    };
    assert(ax * ax <= 0x4000_0000_0000_0000 && ay * ay <= 0x4000_0000_0000_0000
        && ax * ax == x * x && ay * ay == y * y && ax * ax + ay * ay > 0 && (ax == 0 ==> ax * ax
        == 0) && (ay == 0 ==> ay * ay == 0)) by (nonlinear_arith)
        requires
            ax == abs(x as int),
            ay == abs(y as int),
            ax <= 0x8000_0000,
            ay <= 0x8000_0000,
            ax > 0 || ay > 0,
    ;
    let x2: u128 = ax * ax;
    let y2: u128 = ay * ay;
    let n: u128 = x2 + y2;
    let mx = unit_magnitude(x2, n);
    let my = unit_magnitude(y2, n);
    let dx: i64 = if x < 0 {
        -(mx as i64)
    } else {
        mx as i64
    };
    let dy: i64 = if y < 0 {
        -(my as i64)
    } else {
        my as i64
    };
    proof {
        assert(dx * dx == mx * mx && dy * dy == my * my) by (nonlinear_arith)
            requires
                dx == mx || dx == -mx,
                dy == my || dy == -my,
        ;
        assert(x2 * DIRECTION_ONE * DIRECTION_ONE == x * x * DIRECTION_ONE * DIRECTION_ONE);
        assert(y2 * DIRECTION_ONE * DIRECTION_ONE == y * y * DIRECTION_ONE * DIRECTION_ONE);
        assert(abs(dx as int) == mx && abs(dy as int) == my);
    }
    Vec2 { x: dx, y: dy }
}

proof fn lemma_split_bounds(a2: int, b2: int, a1: int, b1: int, px: int, py: int, s: int, n: int)
    by (nonlinear_arith)
    requires
        n == px + py,
        n > 0,
        a2 * n <= px * s,
        b2 * n <= py * s,
        px * s < a1 * n,
        py * s < b1 * n,
    ensures
        a2 + b2 <= s,
        a1 + b1 > s,
{
    assert((a2 + b2) * n <= n * s);
    assert((a1 + b1) * n > n * s);
}

/// The unit vector along a vector has unit length up to rounding.
pub proof fn lemma_unit_of_is_unit(d: Vec2, x: int, y: int)
    requires
        is_unit_of(d, x, y),
    ensures
        is_unit_direction(d),
{
    let one = DIRECTION_ONE as int;
    if x == 0 && y == 0 {
        assert(is_unit_direction(d)) by (nonlinear_arith)
            requires
                d.x == 0,
                d.y == one,
                DIRECTION_ONE == one,
                one == 1_000_000,
        ;
    } else {
        let n = x * x + y * y;
        let a = abs(d.x as int);
        let b = abs(d.y as int);
        assert(n > 0 && x * x >= 0 && y * y >= 0) by (nonlinear_arith)
            requires
                n == x * x + y * y,
                x != 0 || y != 0,
        ;
        assert(a * a == d.x * d.x && b * b == d.y * d.y) by (nonlinear_arith)
            requires
                a == d.x || a == -d.x,
                b == d.y || b == -d.y,
        ;
        assert(x * x * one * one == (x * x) * (one * one) && y * y * one * one == (y * y) * (one
            * one)) by (nonlinear_arith);
        lemma_split_bounds(
            a * a,
            b * b,
            (a + 1) * (a + 1),
            (b + 1) * (b + 1),
            x * x,
            y * y,
            one * one,
            n,
        );
    }
}

/// Whether `d` is a direction that can be drawn: the unit vector along some
/// vector with both components in the range of a direction roll.
pub open spec fn is_drawn_direction(d: Vec2) -> bool {
    exists|x: int, y: int|
        -DIRECTION_ROLL_RANGE <= x < DIRECTION_ROLL_RANGE && -DIRECTION_ROLL_RANGE <= y
            < DIRECTION_ROLL_RANGE && #[trigger] is_unit_of(d, x, y)
}

/// Draws a direction: each component is drawn from the interval from -1 to
/// 1, and the vector is scaled to unit length.
pub fn random_direction(rng: &mut StdRng) -> (d: Vec2)
    ensures
        is_drawn_direction(d),
        is_unit_direction(d),
{
    let x = gen_range(rng, -DIRECTION_ROLL_RANGE, DIRECTION_ROLL_RANGE);
    let y = gen_range(rng, -DIRECTION_ROLL_RANGE, DIRECTION_ROLL_RANGE);
    let d = unit_direction(x, y);
    proof {
        lemma_unit_of_is_unit(d, x as int, y as int);
    }
    d
}

} // verus!
