//! The fixed dimensions and speeds of the game.
//!
//! A world unit is divided into `SUBUNITS` sub-units; positions and extents
//! are counted in sub-units. A direction is counted in parts of
//! `DIRECTION_ONE`, and a velocity is a direction times a speed: it says how
//! many sub-units are covered in one millisecond.

use vstd::prelude::*;

verus! {

/// Sub-units in one world unit.
pub const SUBUNITS: i64 = 1_000_000_000;

/// The direction component that stands for 1.
pub const DIRECTION_ONE: i64 = 1_000_000;

/// The period of the simulation in milliseconds, unless the caller chooses
/// another.
pub const TICK_MILLIS: u32 = 16;

// paddle
pub const PADDLE_START_Y: i64 = -100 * SUBUNITS;

pub const PADDLE_WIDTH: i64 = 120 * SUBUNITS;

pub const PADDLE_HEIGHT: i64 = 20 * SUBUNITS;

pub const PADDLE_SPEED: i64 = 500;

// ball
pub const BALL_START_X: i64 = 0;

pub const BALL_START_Y: i64 = -50 * SUBUNITS;

pub const BALL_WIDTH: i64 = 20 * SUBUNITS;

pub const BALL_HEIGHT: i64 = 20 * SUBUNITS;

pub const BALL_SPEED: i64 = 500;

pub const BALL_INIT_DIRECTION_X: i64 = 500_000;

pub const BALL_INIT_DIRECTION_Y: i64 = -500_000;

/// The logical name of the picture that a ball is drawn with.
pub const BALL_TEXTURE: &'static str = "textures/circle.png";

// boundary
pub const LOWER_BOUND_X: i64 = -400 * SUBUNITS;

pub const LOWER_BOUND_Y: i64 = -300 * SUBUNITS;

pub const HIGHER_BOUND_X: i64 = 400 * SUBUNITS;

pub const HIGHER_BOUND_Y: i64 = 300 * SUBUNITS;

pub const WALL_THICKNESS: i64 = 10 * SUBUNITS;

// bricks
pub const BRICK_WIDTH: i64 = 40 * SUBUNITS;

pub const BRICK_HEIGHT: i64 = 10 * SUBUNITS;

pub const GAP_BETWEEN_BRICKS_X: i64 = 50 * SUBUNITS;

pub const GAP_BETWEEN_BRICKS_Y: i64 = 10 * SUBUNITS;

pub const GAP_BETWEEN_BRICKS_AND_CEILING: i64 = 20 * SUBUNITS;

pub const GAP_BETWEEN_BRICKS_AND_SIDES: i64 = 20 * SUBUNITS;

/// Bricks in one row of the field.
pub const BRICK_COLUMNS: usize = 11;

/// Rows of bricks in a standard session.
pub const DEFAULT_BRICK_ROWS: i32 = 5;

/// A brick-kind roll is drawn from `0..KIND_ROLL_RANGE`.
pub const KIND_ROLL_RANGE: i32 = 100;

/// Rolls below this value yield a bonus brick.
pub const BONUS_ROLL_LIMIT: i32 = 10;

/// A direction roll is drawn from `-DIRECTION_ROLL_RANGE..DIRECTION_ROLL_RANGE`,
/// which stands for the interval from -1 to 1.
pub const DIRECTION_ROLL_RANGE: i32 = 1_000_000;

/// Balls released by a bonus brick.
pub const BONUS_BALLS: usize = 3;

} // verus!
