//! The objects of a play session: paddle, balls, bricks and walls.

use vstd::prelude::*;
use crate::config::{BALL_HEIGHT, BALL_SPEED, BALL_WIDTH};
use crate::geometry::{Vec2, clamp_i64, saturate};

verus! {

/// Anything a ball can run into: a box given by its centre and full extent.
pub trait Collidable {
    spec fn center(&self) -> Vec2;

    spec fn extent(&self) -> Vec2;

    /// The centre of the box.
    fn position(&self) -> (p: Vec2)
        ensures
            p == self.center(),
    ;

    /// The full width and height of the box.
    fn size(&self) -> (s: Vec2)
        ensures
            s == self.extent(),
    ;
}

/// The player's paddle.
#[derive(Clone, Copy, Debug, PartialEq, Eq, Structural)]
pub struct Paddle {
    pub position: Vec2,
    pub size: Vec2,
}

/// A ball in flight. `despawn` marks it for removal at the end of the tick.
#[derive(Clone, Copy, Debug, PartialEq, Eq, Structural)]
pub struct Ball {
    pub position: Vec2,
    pub velocity: Vec2,
    pub size: Vec2,
    pub despawn: bool,
}

/// What a brick does when it is destroyed.
#[derive(Clone, Copy, Debug, PartialEq, Eq, Structural)]
pub enum BrickType {
    Normal,
    AddTripleBall,
}

/// A brick. `despawn` marks it for removal at the end of the tick.
#[derive(Clone, Copy, Debug, PartialEq, Eq, Structural)]
pub struct Brick {
    pub position: Vec2,
    pub size: Vec2,
    pub health: u32,
    pub brick_type: BrickType,
    pub despawn: bool,
}

/// A wall of the playfield. Walls never move and never despawn.
#[derive(Clone, Copy, Debug, PartialEq, Eq, Structural)]
pub struct Wall {
    pub position: Vec2,
    pub size: Vec2,
}

/// The running score. It outlives the play session.
#[derive(Clone, Copy, Debug, PartialEq, Eq, Structural)]
pub struct Scoreboard {
    pub score: u64,
}

/// The velocity of a ball sent off in `direction`: the direction times
/// `BALL_SPEED`, each component kept within the coordinate range.
pub open spec fn spec_launch_velocity(direction: Vec2) -> Vec2 {
    Vec2 { x: clamp_i64(direction.x * BALL_SPEED), y: clamp_i64(direction.y * BALL_SPEED) }
}

/// A new ball at `position`, sent off in `direction` at `BALL_SPEED`.
pub open spec fn spec_launch(position: Vec2, direction: Vec2) -> Ball {
    Ball {
        position,
        velocity: spec_launch_velocity(direction),
        size: Vec2 { x: BALL_WIDTH, y: BALL_HEIGHT },
        despawn: false,
    }
}

impl Ball {
    /// Makes a ball at `position` that flies in `direction` at `BALL_SPEED`.
    pub fn launch(position: Vec2, direction: Vec2) -> (ball: Ball)
        ensures
            ball == spec_launch(position, direction),
    {
        Ball {
            position,
            velocity: Vec2 {
                x: saturate((direction.x as i128) * (BALL_SPEED as i128)),
                y: saturate((direction.y as i128) * (BALL_SPEED as i128)),
            },
            size: Vec2 { x: BALL_WIDTH, y: BALL_HEIGHT },
            despawn: false,
        }
    }
}

impl Collidable for Paddle {
    open spec fn center(&self) -> Vec2 {
        self.position
    }

    open spec fn extent(&self) -> Vec2 {
        self.size
    }

    fn position(&self) -> (p: Vec2) {
        self.position
    }

    fn size(&self) -> (s: Vec2) {
        self.size
    }
}

impl Collidable for Ball {
    open spec fn center(&self) -> Vec2 {
        self.position
    }

    open spec fn extent(&self) -> Vec2 {
        self.size
    }

    fn position(&self) -> (p: Vec2) {
        self.position
    }

    fn size(&self) -> (s: Vec2) {
        self.size
    }
}

impl Collidable for Brick {
    open spec fn center(&self) -> Vec2 {
        self.position
    }

    open spec fn extent(&self) -> Vec2 {
        self.size
    }

    fn position(&self) -> (p: Vec2) {
        self.position
    }

    fn size(&self) -> (s: Vec2) {
        self.size
    }
}

impl Collidable for Wall {
    open spec fn center(&self) -> Vec2 {
        self.position
    }

    open spec fn extent(&self) -> Vec2 {
        self.size
    }

    fn position(&self) -> (p: Vec2) {
        self.position
    }

    fn size(&self) -> (s: Vec2) {
        self.size
    }
}

} // verus!
