//! Motion over one tick: the paddle under player input, a ball under its
//! velocity, and the test for a ball that has left the field.

use vstd::prelude::*;
use crate::config::{
    DIRECTION_ONE, HIGHER_BOUND_X, LOWER_BOUND_X, LOWER_BOUND_Y, PADDLE_SPEED, PADDLE_WIDTH,
};
use crate::geometry::{Vec2, clamp_i64, saturate};
use crate::entity::{Ball, Paddle};

verus! {

/// The player's intent for one tick.
#[derive(Clone, Copy, Debug, PartialEq, Eq, Structural)]
pub struct PaddleInput {
    pub left: bool,
    pub right: bool,
}

/// A coordinate after `dt` milliseconds at velocity `v`. Motion stops at the
/// ends of the coordinate range.
pub open spec fn spec_travel(from: i64, v: i64, dt: u32) -> i64 {
    clamp_i64(from + v * dt)
}

fn travel(from: i64, v: i64, dt: u32) -> (to: i64)
    ensures
        to == spec_travel(from, v, dt),
{
    assert(-0x8000_0000_0000_0000 * 0x1_0000_0000 <= v * dt <= 0x8000_0000_0000_0000
        * 0x1_0000_0000) by (nonlinear_arith)
        requires
            -0x8000_0000_0000_0000 <= v <= 0x8000_0000_0000_0000,
            0 <= dt <= 0x1_0000_0000,
    ;
    saturate((from as i128) + (v as i128) * (dt as i128))
}

/// A ball after `dt` milliseconds of free flight.
pub open spec fn spec_advance(ball: Ball, dt: u32) -> Ball {
    Ball {
        position: Vec2 {
            x: spec_travel(ball.position.x, ball.velocity.x, dt),
            y: spec_travel(ball.position.y, ball.velocity.y, dt),
        },
        ..ball
    }
}

/// Moves a ball along its velocity for `dt` milliseconds.
pub fn advance(ball: Ball, dt: u32) -> (moved: Ball)
    ensures
        moved == spec_advance(ball, dt),
{
    Ball {
        position: Vec2 {
            x: travel(ball.position.x, ball.velocity.x, dt),
            y: travel(ball.position.y, ball.velocity.y, dt),
        },
        ..ball
    }
}

/// The leftmost position of the paddle's centre.
pub open spec fn paddle_min_x() -> int {
    LOWER_BOUND_X + PADDLE_WIDTH / 2
}

/// The rightmost position of the paddle's centre.
pub open spec fn paddle_max_x() -> int {
    HIGHER_BOUND_X - PADDLE_WIDTH / 2
}

/// The direction asked for: -1 for left, 1 for right, 0 for neither or both.
pub open spec fn steer(input: PaddleInput) -> int {
    (if input.right { 1int } else { 0int }) - (if input.left { 1int } else { 0int })
}

/// The x coordinate of the paddle after one tick: the paddle moves at
/// `PADDLE_SPEED` in the direction asked for and stops at the field's sides.
pub open spec fn spec_paddle_x(x: i64, input: PaddleInput, dt: u32) -> i64 {
    let target = x + steer(input) * DIRECTION_ONE * PADDLE_SPEED * dt;
    if target > paddle_max_x() {
        paddle_max_x() as i64
    } else if target < paddle_min_x() {
        paddle_min_x() as i64
    } else {
        target as i64
    }
}

/// The paddle after one tick under `input`.
pub open spec fn spec_steer_paddle(paddle: Paddle, input: PaddleInput, dt: u32) -> Paddle {
    Paddle {
        position: Vec2 { x: spec_paddle_x(paddle.position.x, input, dt), y: paddle.position.y },
        ..paddle
    }
}

/// Moves the paddle for one tick of `dt` milliseconds and keeps it between
/// the sides of the field.
pub fn steer_paddle(paddle: Paddle, input: PaddleInput, dt: u32) -> (moved: Paddle)
    ensures
        moved == spec_steer_paddle(paddle, input, dt),
        paddle_min_x() <= moved.position.x <= paddle_max_x(),
{
    let mut direction: i128 = 0;
    if input.left {
        direction = direction - 1;
    }
    if input.right {
        direction = direction + 1;
    }
    let rate: i128 = (DIRECTION_ONE as i128) * (PADDLE_SPEED as i128);
    let step: i128 = rate * (dt as i128);
    assert(steer(input) * DIRECTION_ONE * PADDLE_SPEED * dt == direction * step) by (nonlinear_arith)
        requires
            direction == steer(input),
            step == DIRECTION_ONE * PADDLE_SPEED * dt,
    ;
    let target: i128 = (paddle.position.x as i128) + direction * step;
    let half: i64 = PADDLE_WIDTH / 2;
    let low: i64 = LOWER_BOUND_X + half;
    let high: i64 = HIGHER_BOUND_X - half;
    let x: i64 = if target > high as i128 {
        high
    } else if target < low as i128 {
        low
    } else {
        target as i64
    };
    Paddle { position: Vec2 { x, y: paddle.position.y }, ..paddle }
}

/// Whether a ball has dropped out of the field: its centre lies more than
/// half its height below the lower bound.
pub open spec fn off_field(ball: Ball) -> bool {
    2 * ball.position.y < 2 * LOWER_BOUND_Y - ball.size.y
}

/// The ball, marked for removal if it has dropped out of the field.
pub open spec fn spec_check_despawn(ball: Ball) -> Ball {
    if off_field(ball) {
        Ball { despawn: true, ..ball }
    } else {
        ball
    }
}

/// Marks the ball for removal if it has dropped out of the field.
pub fn check_despawn(ball: Ball) -> (checked: Ball)
    ensures
        checked == spec_check_despawn(ball),
{
    let y2: i128 = 2 * (ball.position.y as i128);
    let floor2: i128 = 2 * (LOWER_BOUND_Y as i128) - (ball.size.y as i128);
    if y2 < floor2 {
        Ball { despawn: true, ..ball }
    } else {
        ball
    }
}

} // verus!
