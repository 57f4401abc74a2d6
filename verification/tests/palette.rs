use breakout::entity::BrickType;
use breakout::palette::{
    background_color, ball_color, brick_color, button_color, paddle_color, wall_color,
    Interaction, Rgb,
};

#[test]
fn colors_of_the_objects() {
    assert_eq!(background_color(), Rgb { r: 90, g: 90, b: 90 });
    assert_eq!(paddle_color(), Rgb { r: 50, g: 50, b: 100 });
    assert_eq!(ball_color(), Rgb { r: 100, g: 50, b: 50 });
    assert_eq!(wall_color(), Rgb { r: 50, g: 50, b: 50 });
}

#[test]
fn bonus_bricks_stand_out() {
    assert_eq!(brick_color(BrickType::Normal), Rgb { r: 50, g: 50, b: 100 });
    assert_eq!(brick_color(BrickType::AddTripleBall), Rgb { r: 100, g: 0, b: 0 });
}

#[test]
fn button_shows_the_interaction() {
    assert_eq!(button_color(Interaction::Idle), Rgb { r: 15, g: 15, b: 15 });
    assert_eq!(button_color(Interaction::Hovered), Rgb { r: 10, g: 0, b: 0 });
    assert_eq!(button_color(Interaction::Pressed), Rgb { r: 10, g: 10, b: 10 });
}
