use breakout::config::{
    HIGHER_BOUND_X, LOWER_BOUND_X, LOWER_BOUND_Y, PADDLE_HEIGHT, PADDLE_START_Y, PADDLE_WIDTH,
    SUBUNITS,
};
use breakout::entity::{Ball, Paddle};
use breakout::geometry::Vec2;
use breakout::motion::{advance, check_despawn, steer_paddle, PaddleInput};

const LEFT: PaddleInput = PaddleInput { left: true, right: false };
const RIGHT: PaddleInput = PaddleInput { left: false, right: true };
const NEITHER: PaddleInput = PaddleInput { left: false, right: false };
const BOTH: PaddleInput = PaddleInput { left: true, right: true };

fn v(x: i64, y: i64) -> Vec2 {
    Vec2 { x, y }
}

fn paddle_at(x: i64) -> Paddle {
    Paddle { position: v(x, PADDLE_START_Y), size: v(PADDLE_WIDTH, PADDLE_HEIGHT) }
}

fn ball_at(x: i64, y: i64, vx: i64, vy: i64) -> Ball {
    Ball {
        position: v(x, y),
        velocity: v(vx, vy),
        size: v(20 * SUBUNITS, 20 * SUBUNITS),
        despawn: false,
    }
}

#[test]
fn advance_adds_velocity_times_time() {
    let ball = ball_at(100, -200, 250_000_000, -250_000_000);
    let moved = advance(ball, 16);
    assert_eq!(moved.position, v(100 + 4_000_000_000, -200 - 4_000_000_000));
    assert_eq!(moved.velocity, ball.velocity);
    assert_eq!(moved.size, ball.size);
    assert!(!moved.despawn);
}

#[test]
fn advance_by_no_time_stands_still() {
    let ball = ball_at(5, 6, 7, 8);
    assert_eq!(advance(ball, 0), ball);
}

#[test]
fn advance_stops_at_the_ends_of_the_range() {
    let up = advance(ball_at(i64::MAX - 5, 0, 10, 0), 1);
    assert_eq!(up.position, v(i64::MAX, 0));
    let down = advance(ball_at(0, i64::MIN + 5, 0, -10), 1);
    assert_eq!(down.position, v(0, i64::MIN));
    let far = advance(ball_at(0, 0, i64::MAX, i64::MIN), u32::MAX);
    assert_eq!(far.position, v(i64::MAX, i64::MIN));
}

#[test]
fn paddle_moves_at_its_speed() {
    // 500 world units per second: 8 world units in 16 ms.
    assert_eq!(steer_paddle(paddle_at(0), RIGHT, 16).position, v(8 * SUBUNITS, PADDLE_START_Y));
    assert_eq!(steer_paddle(paddle_at(0), LEFT, 16).position, v(-8 * SUBUNITS, PADDLE_START_Y));
    assert_eq!(steer_paddle(paddle_at(0), RIGHT, 1).position.x, 500_000_000);
}

#[test]
fn paddle_stands_without_input_or_with_both() {
    assert_eq!(steer_paddle(paddle_at(123), NEITHER, 16), paddle_at(123));
    assert_eq!(steer_paddle(paddle_at(123), BOTH, 16), paddle_at(123));
}

#[test]
fn paddle_stops_at_the_sides() {
    let max = HIGHER_BOUND_X - PADDLE_WIDTH / 2;
    let min = LOWER_BOUND_X + PADDLE_WIDTH / 2;
    assert_eq!(max, 340 * SUBUNITS);
    assert_eq!(min, -340 * SUBUNITS);
    assert_eq!(steer_paddle(paddle_at(335 * SUBUNITS), RIGHT, 16).position.x, max);
    assert_eq!(steer_paddle(paddle_at(-335 * SUBUNITS), LEFT, 16).position.x, min);
    assert_eq!(steer_paddle(paddle_at(0), RIGHT, u32::MAX).position.x, max);
    assert_eq!(steer_paddle(paddle_at(0), LEFT, u32::MAX).position.x, min);
}

#[test]
fn paddle_outside_the_field_is_brought_back() {
    let max = HIGHER_BOUND_X - PADDLE_WIDTH / 2;
    let min = LOWER_BOUND_X + PADDLE_WIDTH / 2;
    assert_eq!(steer_paddle(paddle_at(i64::MAX), NEITHER, 16).position.x, max);
    assert_eq!(steer_paddle(paddle_at(i64::MIN), NEITHER, 16).position.x, min);
    assert_eq!(steer_paddle(paddle_at(i64::MAX), RIGHT, u32::MAX).position.x, max);
    assert_eq!(steer_paddle(paddle_at(i64::MIN), LEFT, u32::MAX).position.x, min);
}

#[test]
fn paddle_keeps_height_and_size() {
    let paddle = Paddle { position: v(0, 77), size: v(3, 4) };
    let moved = steer_paddle(paddle, RIGHT, 10);
    assert_eq!(moved.position.y, 77);
    assert_eq!(moved.size, v(3, 4));
}

#[test]
fn ball_is_marked_only_below_the_field() {
    // The limit is the lower bound minus half the ball's height.
    let limit = LOWER_BOUND_Y - 10 * SUBUNITS;
    assert_eq!(limit, -310 * SUBUNITS);
    let on_limit = ball_at(0, limit, 0, -1);
    assert_eq!(check_despawn(on_limit), on_limit);
    let below = ball_at(0, limit - 1, 0, -1);
    assert_eq!(check_despawn(below), Ball { despawn: true, ..below });
    let above = ball_at(0, 0, 0, -1);
    assert_eq!(check_despawn(above), above);
}

#[test]
fn ball_leaving_sideways_or_upwards_is_not_marked() {
    let left = ball_at(-10_000 * SUBUNITS, 0, -1, 0);
    assert!(!check_despawn(left).despawn);
    let up = ball_at(0, 10_000 * SUBUNITS, 0, 1);
    assert!(!check_despawn(up).despawn);
}

#[test]
fn marked_ball_stays_marked() {
    let marked = Ball { despawn: true, ..ball_at(0, 0, 0, 0) };
    assert_eq!(check_despawn(marked), marked);
}

#[test]
fn despawn_limit_is_exact_for_odd_heights() {
    // Height 1: the limit lies half a sub-unit below the lower bound.
    let ball = Ball { size: v(1, 1), ..ball_at(0, LOWER_BOUND_Y, 0, 0) };
    assert!(!check_despawn(ball).despawn);
    let lower = Ball { position: v(0, LOWER_BOUND_Y - 1), ..ball };
    assert!(check_despawn(lower).despawn);
}
