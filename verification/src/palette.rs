//! The colours that the game hands to whatever draws it.

use vstd::prelude::*;
use crate::entity::BrickType;

verus! {

/// A colour. Each channel is an intensity in percent, from 0 to 100.
#[derive(Clone, Copy, Debug, PartialEq, Eq, Structural)]
pub struct Rgb {
    pub r: u8,
    pub g: u8,
    pub b: u8,
}

/// What the pointer does to the "Play" button.
#[derive(Clone, Copy, Debug, PartialEq, Eq, Structural)]
pub enum Interaction {
    Pressed,
    Hovered,
    Idle,
}

/// The colour of a brick of the given kind.
pub open spec fn spec_brick_color(brick_type: BrickType) -> Rgb {
    match brick_type {
        BrickType::AddTripleBall => Rgb { r: 100, g: 0, b: 0 },
        BrickType::Normal => Rgb { r: 50, g: 50, b: 100 },
    }
}

/// The colour of the "Play" button under the given interaction.
pub open spec fn spec_button_color(interaction: Interaction) -> Rgb {
    match interaction {
        Interaction::Pressed => Rgb { r: 10, g: 10, b: 10 },
        Interaction::Hovered => Rgb { r: 10, g: 0, b: 0 },
        Interaction::Idle => Rgb { r: 15, g: 15, b: 15 },
    }
}

/// The colour of the background.
pub fn background_color() -> (c: Rgb)
    ensures
        c == (Rgb { r: 90, g: 90, b: 90 }),
{
    Rgb { r: 90, g: 90, b: 90 }
}

/// The colour of the paddle.
pub fn paddle_color() -> (c: Rgb)
    ensures
        c == (Rgb { r: 50, g: 50, b: 100 }),
{
    Rgb { r: 50, g: 50, b: 100 }
}

/// The colour of a ball.
pub fn ball_color() -> (c: Rgb)
    ensures
        c == (Rgb { r: 100, g: 50, b: 50 }),
{
    Rgb { r: 100, g: 50, b: 50 }
}

/// The colour of a wall.
pub fn wall_color() -> (c: Rgb)
    ensures
        c == (Rgb { r: 50, g: 50, b: 50 }),
{
    Rgb { r: 50, g: 50, b: 50 }
}

/// The colour of a brick: bonus bricks stand out from normal ones.
pub fn brick_color(brick_type: BrickType) -> (c: Rgb)
    ensures
        c == spec_brick_color(brick_type),
{
    match brick_type {
        BrickType::AddTripleBall => Rgb { r: 100, g: 0, b: 0 },
        BrickType::Normal => Rgb { r: 50, g: 50, b: 100 },
    }
}

/// The colour of the "Play" button: idle, hovered or pressed.
pub fn button_color(interaction: Interaction) -> (c: Rgb)
    ensures
        c == spec_button_color(interaction),
{
    match interaction {
        Interaction::Pressed => Rgb { r: 10, g: 10, b: 10 },
        Interaction::Hovered => Rgb { r: 10, g: 0, b: 0 },
        Interaction::Idle => Rgb { r: 15, g: 15, b: 15 },
    }
}

} // verus!
