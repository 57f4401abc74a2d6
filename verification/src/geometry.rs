//! Axis-aligned boxes: the vector type and the overlap test with edge
//! classification.

use vstd::prelude::*;

verus! {

/// A pair of coordinates: a position, an extent, a velocity or a direction.
#[derive(Clone, Copy, Debug, PartialEq, Eq, Structural)]
pub struct Vec2 {
    pub x: i64,
    pub y: i64,
}

/// The nearest `i64` to an integer.
pub open spec fn clamp_i64(v: int) -> i64 {
    if v < i64::MIN {
        i64::MIN
    } else if v > i64::MAX {
        i64::MAX
    } else {
        v as i64
    }
}

/// Brings a wide intermediate result back into the coordinate range.
pub fn saturate(v: i128) -> (r: i64)
    ensures
        r == clamp_i64(v as int),
{
    if v < i64::MIN as i128 {
        i64::MIN
    } else if v > i64::MAX as i128 {
        i64::MAX
    } else {
        v as i64
    }
}

/// The edge of a box through which another box has entered it.
#[derive(Clone, Copy, Debug, PartialEq, Eq, Structural)]
pub enum EdgeDirection {
    Left,
    Right,
    Top,
    Bottom,
    Inside,
}

/// Twice the lower bound of a box along one axis, from its centre and its
/// full extent. Bounds are doubled so that odd extents stay exact.
pub open spec fn low2(center: int, size: int) -> int {
    2 * center - size
}

/// Twice the upper bound of a box along one axis.
pub open spec fn high2(center: int, size: int) -> int {
    2 * center + size
}

/// Whether two intervals, given by centre and full extent, share interior
/// points.
pub open spec fn axis_overlaps(a: int, a_size: int, b: int, b_size: int) -> bool {
    low2(a, a_size) < high2(b, b_size) && high2(a, a_size) > low2(b, b_size)
}

/// `a` straddles the lower bound of `b` along one axis.
pub open spec fn crosses_low(a: int, a_size: int, b: int, b_size: int) -> bool {
    low2(a, a_size) < low2(b, b_size) && high2(a, a_size) > low2(b, b_size)
}

/// `a` straddles the upper bound of `b` along one axis (and not its lower
/// bound, which takes precedence).
pub open spec fn crosses_high(a: int, a_size: int, b: int, b_size: int) -> bool {
    !crosses_low(a, a_size, b, b_size) && low2(a, a_size) < high2(b, b_size) && high2(
        a,
        a_size,
    ) > high2(b, b_size)
}

/// Doubled penetration depth of `a` into `b` along one axis; `None` when `a`
/// straddles neither bound of `b`, which counts as deeper than any depth.
pub open spec fn axis_depth2(a: int, a_size: int, b: int, b_size: int) -> Option<int> {
    if crosses_low(a, a_size, b, b_size) {
        Some(high2(a, a_size) - low2(b, b_size))
    } else if crosses_high(a, a_size, b, b_size) {
        Some(high2(b, b_size) - low2(a, a_size))
    } else {
        None
    }
}

/// The edge of `b` struck along the x axis, taken alone.
pub open spec fn x_edge(a: int, a_size: int, b: int, b_size: int) -> EdgeDirection {
    if crosses_low(a, a_size, b, b_size) {
        EdgeDirection::Left
    } else if crosses_high(a, a_size, b, b_size) {
        EdgeDirection::Right
    } else {
        EdgeDirection::Inside
    }
}

/// The edge of `b` struck along the y axis, taken alone.
pub open spec fn y_edge(a: int, a_size: int, b: int, b_size: int) -> EdgeDirection {
    if crosses_low(a, a_size, b, b_size) {
        EdgeDirection::Bottom
    } else if crosses_high(a, a_size, b, b_size) {
        EdgeDirection::Top
    } else {
        EdgeDirection::Inside
    }
}

/// Whether the y axis is the axis of least penetration. On equal depths the
/// x axis wins.
pub open spec fn y_is_shallower(x_depth: Option<int>, y_depth: Option<int>) -> bool {
    match (x_depth, y_depth) {
        (_, None) => false,
        (None, Some(_)) => true,
        (Some(dx), Some(dy)) => dy < dx,
    }
}

/// The overlap test: `None` when the boxes share no interior point, else the
/// edge of `b` on the axis of least penetration.
pub open spec fn spec_overlap(a_pos: Vec2, a_size: Vec2, b_pos: Vec2, b_size: Vec2) -> Option<
    EdgeDirection,
> {
    if axis_overlaps(a_pos.x as int, a_size.x as int, b_pos.x as int, b_size.x as int)
        && axis_overlaps(a_pos.y as int, a_size.y as int, b_pos.y as int, b_size.y as int) {
        let dx = axis_depth2(a_pos.x as int, a_size.x as int, b_pos.x as int, b_size.x as int);
        let dy = axis_depth2(a_pos.y as int, a_size.y as int, b_pos.y as int, b_size.y as int);
        if y_is_shallower(dx, dy) {
            Some(y_edge(a_pos.y as int, a_size.y as int, b_pos.y as int, b_size.y as int))
        } else {
            Some(x_edge(a_pos.x as int, a_size.x as int, b_pos.x as int, b_size.x as int))
        }
    } else {
        None
    }
}

/// Tests box `a` against box `b`, each given by its centre and full extent.
/// Returns the edge of `b` that `a` has struck, `Inside` when `a` straddles
/// no bound of `b` on the deciding axis, or `None` when they do not touch.
pub fn overlap(a_pos: Vec2, a_size: Vec2, b_pos: Vec2, b_size: Vec2) -> (hit: Option<
    EdgeDirection,
>)
    ensures
        hit == spec_overlap(a_pos, a_size, b_pos, b_size),
{
    let a_min_x: i128 = 2 * (a_pos.x as i128) - (a_size.x as i128);
    let a_max_x: i128 = 2 * (a_pos.x as i128) + (a_size.x as i128);
    let a_min_y: i128 = 2 * (a_pos.y as i128) - (a_size.y as i128);
    let a_max_y: i128 = 2 * (a_pos.y as i128) + (a_size.y as i128);
    let b_min_x: i128 = 2 * (b_pos.x as i128) - (b_size.x as i128);
    let b_max_x: i128 = 2 * (b_pos.x as i128) + (b_size.x as i128);
    let b_min_y: i128 = 2 * (b_pos.y as i128) - (b_size.y as i128);
    let b_max_y: i128 = 2 * (b_pos.y as i128) + (b_size.y as i128);

    if !(a_min_x < b_max_x && a_max_x > b_min_x && a_min_y < b_max_y && a_max_y > b_min_y) {
        return None;
    }
    // An axis on which no bound is straddled has no depth; `None` stands for it.
    let mut x_side = EdgeDirection::Inside;
    let mut x_depth: Option<i128> = None;
    if a_min_x < b_min_x && a_max_x > b_min_x {
        x_side = EdgeDirection::Left;
        x_depth = Some(a_max_x - b_min_x);
    } else if a_min_x < b_max_x && a_max_x > b_max_x {
        x_side = EdgeDirection::Right;
        x_depth = Some(b_max_x - a_min_x);
    }
    let mut y_side = EdgeDirection::Inside;
    let mut y_depth: Option<i128> = None;
    if a_min_y < b_min_y && a_max_y > b_min_y {
        y_side = EdgeDirection::Bottom;
        y_depth = Some(a_max_y - b_min_y);
    } else if a_min_y < b_max_y && a_max_y > b_max_y {
        y_side = EdgeDirection::Top;
        y_depth = Some(b_max_y - a_min_y);
    }
    let y_wins = match (x_depth, y_depth) {
        (_, None) => false,
        (None, Some(_)) => true,
        (Some(dx), Some(dy)) => dy < dx,
    };
    if y_wins {
        Some(y_side)
    } else {
        Some(x_side)
    }
}

} // verus!
