use breakout::config::{BALL_SPEED, DIRECTION_ONE};
use breakout::direction::{isqrt, random_direction, unit_direction};
use breakout::geometry::Vec2;
use rand::rngs::StdRng;
use rand::SeedableRng;

fn norm2(v: Vec2) -> i128 {
    (v.x as i128) * (v.x as i128) + (v.y as i128) * (v.y as i128)
}

fn is_unit(d: Vec2) -> bool {
    let one = (DIRECTION_ONE as i128) * (DIRECTION_ONE as i128);
    let ax = (d.x as i128).abs() + 1;
    let ay = (d.y as i128).abs() + 1;
    norm2(d) <= one && ax * ax + ay * ay > one
}

#[test]
fn isqrt_of_small_numbers() {
    assert_eq!(isqrt(0), 0);
    assert_eq!(isqrt(1), 1);
    assert_eq!(isqrt(2), 1);
    assert_eq!(isqrt(3), 1);
    assert_eq!(isqrt(4), 2);
    assert_eq!(isqrt(8), 2);
    assert_eq!(isqrt(9), 3);
    assert_eq!(isqrt(99), 9);
    assert_eq!(isqrt(100), 10);
}

#[test]
fn isqrt_of_large_numbers() {
    assert_eq!(isqrt(1_000_000_000_000), 1_000_000);
    assert_eq!(isqrt(999_999_999_999), 999_999);
    assert_eq!(isqrt(u64::MAX), 4_294_967_295);
    assert_eq!(isqrt(4_294_967_295 * 4_294_967_295), 4_294_967_295);
    assert_eq!(isqrt(4_294_967_295 * 4_294_967_295 - 1), 4_294_967_294);
}

#[test]
fn unit_direction_of_a_three_four_five_triangle() {
    assert_eq!(unit_direction(3, 4), Vec2 { x: 600_000, y: 800_000 });
    assert_eq!(unit_direction(-3, 4), Vec2 { x: -600_000, y: 800_000 });
    assert_eq!(unit_direction(3, -4), Vec2 { x: 600_000, y: -800_000 });
    assert_eq!(unit_direction(-30, -40), Vec2 { x: -600_000, y: -800_000 });
}

#[test]
fn unit_direction_along_an_axis() {
    assert_eq!(unit_direction(7, 0), Vec2 { x: DIRECTION_ONE, y: 0 });
    assert_eq!(unit_direction(-7, 0), Vec2 { x: -DIRECTION_ONE, y: 0 });
    assert_eq!(unit_direction(0, 1), Vec2 { x: 0, y: DIRECTION_ONE });
    assert_eq!(unit_direction(0, -1_000_000), Vec2 { x: 0, y: -DIRECTION_ONE });
}

#[test]
fn unit_direction_rounds_toward_zero() {
    // 1 / sqrt(2) = 0.70710678...
    assert_eq!(unit_direction(1, 1), Vec2 { x: 707_106, y: 707_106 });
    assert_eq!(unit_direction(-1, 1), Vec2 { x: -707_106, y: 707_106 });
    // 1 / sqrt(5) = 0.44721359..., 2 / sqrt(5) = 0.89442719...
    assert_eq!(unit_direction(1, -2), Vec2 { x: 447_213, y: -894_427 });
}

#[test]
fn unit_direction_of_nothing_points_up() {
    assert_eq!(unit_direction(0, 0), Vec2 { x: 0, y: DIRECTION_ONE });
}

#[test]
fn unit_direction_at_the_ends_of_the_range() {
    assert!(is_unit(unit_direction(i32::MAX, i32::MAX)));
    assert!(is_unit(unit_direction(i32::MIN, i32::MIN)));
    assert!(is_unit(unit_direction(i32::MIN, i32::MAX)));
    assert_eq!(unit_direction(i32::MIN, 0), Vec2 { x: -DIRECTION_ONE, y: 0 });
    assert_eq!(unit_direction(i32::MIN, i32::MIN), Vec2 { x: -707_106, y: -707_106 });
    assert_eq!(unit_direction(i32::MAX, 1), Vec2 { x: 999_999, y: 0 });
}

#[test]
fn unit_direction_has_unit_length() {
    let mut x: i32 = -1000;
    while x <= 1000 {
        let mut y: i32 = -1000;
        while y <= 1000 {
            assert!(is_unit(unit_direction(x, y)), "({}, {})", x, y);
            y += 37;
        }
        x += 41;
    }
}

#[test]
fn random_directions_have_unit_length() {
    let mut rng = StdRng::seed_from_u64(1);
    for _ in 0..1000 {
        assert!(is_unit(random_direction(&mut rng)));
    }
}

#[test]
fn random_directions_differ() {
    let mut rng = StdRng::seed_from_u64(2);
    let first = random_direction(&mut rng);
    let mut differs = false;
    let mut left = false;
    let mut right = false;
    let mut up = false;
    let mut down = false;
    for _ in 0..200 {
        let d = random_direction(&mut rng);
        differs = differs || d != first;
        left = left || d.x < 0;
        right = right || d.x > 0;
        down = down || d.y < 0;
        up = up || d.y > 0;
    }
    assert!(differs);
    assert!(left && right && up && down);
}

#[test]
fn speed_of_a_unit_direction() {
    let d = unit_direction(1, 1);
    let speed = (BALL_SPEED as i128) * (DIRECTION_ONE as i128);
    let v = Vec2 { x: d.x * BALL_SPEED, y: d.y * BALL_SPEED };
    assert!(norm2(v) <= speed * speed);
    let least = (BALL_SPEED as i128) * (DIRECTION_ONE as i128 - 3);
    assert!(norm2(v) > least * least);
}
