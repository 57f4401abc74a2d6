use breakout::config::{
    BALL_HEIGHT, BALL_SPEED, BALL_WIDTH, DIRECTION_ONE, HIGHER_BOUND_X, HIGHER_BOUND_Y,
    LOWER_BOUND_X, PADDLE_HEIGHT, PADDLE_START_Y, PADDLE_WIDTH, SUBUNITS, WALL_THICKNESS,
};
use breakout::entity::{Ball, Brick, BrickType, Paddle, Scoreboard, Wall};
use breakout::geometry::Vec2;
use breakout::motion::PaddleInput;
use breakout::world::World;
use rand::rngs::StdRng;
use rand::SeedableRng;

const U: i64 = SUBUNITS;
const IDLE: PaddleInput = PaddleInput { left: false, right: false };
/// Half a world unit per millisecond: the speed of a ball.
const FAST: i64 = 500_000_000;

fn v(x: i64, y: i64) -> Vec2 {
    Vec2 { x, y }
}

fn ball_at(x: i64, y: i64, vx: i64, vy: i64) -> Ball {
    Ball { position: v(x, y), velocity: v(vx, vy), size: v(BALL_WIDTH, BALL_HEIGHT), despawn: false }
}

fn brick_at(x: i64, y: i64, health: u32, brick_type: BrickType) -> Brick {
    Brick { position: v(x, y), size: v(40 * U, 10 * U), health, brick_type, despawn: false }
}

fn norm2(v: Vec2) -> i128 {
    (v.x as i128) * (v.x as i128) + (v.y as i128) * (v.y as i128)
}

/// A world with one ball that will strike the brick at (0, 100) from below
/// in the next tick of 16 ms.
fn world_with_brick(brick: Brick) -> World {
    let mut world = World::new();
    world.balls.push(Some(ball_at(0, 80 * U, 0, FAST)));
    world.spawn_brick(brick);
    world
}

#[test]
fn new_world_is_empty() {
    let world = World::new();
    assert_eq!(world.paddle, None);
    assert!(world.balls.is_empty());
    assert!(world.bricks.is_empty());
    assert!(world.walls.is_empty());
    assert_eq!(world.ball_count(), 0);
    assert_eq!(world.brick_count(), 0);
}

#[test]
fn tick_destroys_a_brick_and_scores() {
    let mut world = world_with_brick(brick_at(0, 100 * U, 1, BrickType::Normal));
    let mut scoreboard = Scoreboard { score: 0 };
    let mut rng = StdRng::seed_from_u64(1);
    world.tick(&mut scoreboard, &mut rng, IDLE, 16);
    assert_eq!(scoreboard.score, 1);
    assert_eq!(world.brick(0), None);
    assert_eq!(world.brick_count(), 0);
    assert_eq!(world.ball_count(), 1);
    assert_eq!(world.ball(0), Some(ball_at(0, 88 * U, 0, -FAST)));
}

#[test]
fn step_reports_no_burst_for_a_normal_brick() {
    let mut world = world_with_brick(brick_at(0, 100 * U, 1, BrickType::Normal));
    let mut scoreboard = Scoreboard { score: 41 };
    let bursts = world.step(&mut scoreboard, IDLE, 16);
    assert!(bursts.is_empty());
    assert_eq!(scoreboard.score, 42);
    assert_eq!(world.bricks, vec![None]);
}

#[test]
fn sturdy_brick_survives_a_hit() {
    let mut world = world_with_brick(brick_at(0, 100 * U, 3, BrickType::AddTripleBall));
    let mut scoreboard = Scoreboard { score: 0 };
    let mut rng = StdRng::seed_from_u64(1);
    world.tick(&mut scoreboard, &mut rng, IDLE, 16);
    assert_eq!(scoreboard.score, 1);
    assert_eq!(world.brick(0), Some(brick_at(0, 100 * U, 2, BrickType::AddTripleBall)));
    assert_eq!(world.balls.len(), 1);
}

#[test]
fn bonus_brick_releases_three_balls() {
    let mut world = world_with_brick(brick_at(0, 100 * U, 1, BrickType::AddTripleBall));
    let mut scoreboard = Scoreboard { score: 0 };
    let mut rng = StdRng::seed_from_u64(1);
    world.tick(&mut scoreboard, &mut rng, IDLE, 16);
    assert_eq!(scoreboard.score, 1);
    assert_eq!(world.brick_count(), 0);
    assert_eq!(world.balls.len(), 4);
    assert_eq!(world.ball_count(), 4);
    assert_eq!(world.ball(0), Some(ball_at(0, 88 * U, 0, -FAST)));
    let speed = (BALL_SPEED as i128) * (DIRECTION_ONE as i128);
    let least = (BALL_SPEED as i128) * (DIRECTION_ONE as i128 - 3);
    for handle in 1..4 {
        let ball = world.ball(handle).unwrap();
        assert_eq!(ball.position, v(0, 88 * U));
        assert_eq!(ball.size, v(BALL_WIDTH, BALL_HEIGHT));
        assert!(!ball.despawn);
        assert_eq!(ball.velocity.x % BALL_SPEED, 0);
        assert_eq!(ball.velocity.y % BALL_SPEED, 0);
        assert!(norm2(ball.velocity) <= speed * speed);
        assert!(norm2(ball.velocity) > least * least);
    }
    assert!(
        world.ball(1).unwrap().velocity != world.ball(2).unwrap().velocity
            || world.ball(2).unwrap().velocity != world.ball(3).unwrap().velocity
    );
}

#[test]
fn step_reports_the_burst() {
    let mut world = world_with_brick(brick_at(0, 100 * U, 1, BrickType::AddTripleBall));
    let mut scoreboard = Scoreboard { score: 0 };
    let bursts = world.step(&mut scoreboard, IDLE, 16);
    assert_eq!(bursts, vec![v(0, 88 * U)]);
    assert_eq!(world.balls.len(), 1);
}

#[test]
fn second_ball_does_not_hit_a_brick_already_destroyed() {
    let mut world = world_with_brick(brick_at(0, 100 * U, 1, BrickType::AddTripleBall));
    world.balls.push(Some(ball_at(5 * U, 80 * U, 0, FAST)));
    let mut scoreboard = Scoreboard { score: 0 };
    let bursts = world.step(&mut scoreboard, IDLE, 16);
    assert_eq!(scoreboard.score, 1);
    assert_eq!(bursts, vec![v(0, 88 * U)]);
    assert_eq!(world.brick(0), None);
    // Until the sweep the brick is in the way: the second ball rebounds too.
    assert_eq!(world.ball(0).unwrap().velocity, v(0, -FAST));
    assert_eq!(world.ball(1).unwrap().velocity, v(0, -FAST));
}

#[test]
fn two_balls_hit_a_sturdy_brick_in_one_tick() {
    let mut world = world_with_brick(brick_at(0, 100 * U, 2, BrickType::AddTripleBall));
    world.balls.push(Some(ball_at(5 * U, 80 * U, 0, FAST)));
    let mut scoreboard = Scoreboard { score: 0 };
    let bursts = world.step(&mut scoreboard, IDLE, 16);
    assert_eq!(scoreboard.score, 2);
    assert_eq!(bursts, vec![v(5 * U, 88 * U)]);
    assert_eq!(world.brick(0), None);
}

#[test]
fn one_ball_hits_two_bricks_in_one_tick() {
    let mut world = world_with_brick(brick_at(-15 * U, 100 * U, 1, BrickType::Normal));
    world.spawn_brick(brick_at(15 * U, 100 * U, 1, BrickType::Normal));
    let mut scoreboard = Scoreboard { score: 0 };
    world.step(&mut scoreboard, IDLE, 16);
    assert_eq!(scoreboard.score, 2);
    assert_eq!(world.brick_count(), 0);
    // Turned by the first brick, the ball moves away from the second.
    assert_eq!(world.ball(0).unwrap().velocity, v(0, -FAST));
}

#[test]
fn ball_below_the_field_is_removed() {
    let mut world = World::new();
    world.balls.push(Some(ball_at(0, -305 * U, 0, -FAST)));
    world.balls.push(Some(ball_at(0, 0, 0, -FAST)));
    let mut scoreboard = Scoreboard { score: 0 };
    let mut rng = StdRng::seed_from_u64(1);
    world.tick(&mut scoreboard, &mut rng, IDLE, 16);
    assert_eq!(world.ball(0), None);
    assert_eq!(world.ball(1), Some(ball_at(0, -8 * U, 0, -FAST)));
    assert_eq!(world.balls.len(), 2);
    assert_eq!(world.ball_count(), 1);
    assert_eq!(scoreboard.score, 0);
}

#[test]
fn ball_is_judged_where_it_is_after_moving() {
    let mut world = World::new();
    // Below the limit of -310 now, above it once moved: it stays.
    world.balls.push(Some(ball_at(0, -315 * U, 0, FAST)));
    // Above the limit now, below it once moved: it goes.
    world.balls.push(Some(ball_at(0, -305 * U, 0, -FAST)));
    // Exactly on the limit once moved: it stays.
    world.balls.push(Some(ball_at(0, -302 * U, 0, -FAST)));
    let mut scoreboard = Scoreboard { score: 0 };
    world.step(&mut scoreboard, IDLE, 16);
    assert_eq!(world.ball(0), Some(ball_at(0, -307 * U, 0, FAST)));
    assert_eq!(world.ball(1), None);
    assert_eq!(world.ball(2), Some(ball_at(0, -310 * U, 0, -FAST)));
}

#[test]
fn handles_are_not_used_again() {
    let mut world = World::new();
    world.balls.push(Some(ball_at(0, -305 * U, 0, -FAST)));
    let mut scoreboard = Scoreboard { score: 0 };
    world.step(&mut scoreboard, IDLE, 16);
    assert_eq!(world.ball(0), None);
    let handle = world.spawn_ball(v(0, 0), v(0, DIRECTION_ONE));
    assert_eq!(handle, 1);
    assert_eq!(world.ball(0), None);
    assert_eq!(world.ball(1), Some(ball_at(0, 0, 0, FAST)));
    world.step(&mut scoreboard, IDLE, 16);
    assert_eq!(world.ball(0), None);
    assert_eq!(world.ball(1), Some(ball_at(0, 8 * U, 0, FAST)));
}

#[test]
fn unknown_handles_give_nothing() {
    let world = world_with_brick(brick_at(0, 100 * U, 1, BrickType::Normal));
    assert_eq!(world.ball(1), None);
    assert_eq!(world.ball(usize::MAX), None);
    assert_eq!(world.brick(1), None);
    assert_eq!(world.brick(usize::MAX), None);
}

#[test]
fn marked_objects_are_swept() {
    let mut world = World::new();
    world.balls.push(Some(Ball { despawn: true, ..ball_at(0, 0, 0, 0) }));
    world.balls.push(Some(ball_at(0, 0, 0, 0)));
    world.spawn_brick(brick_at(0, 200 * U, 1, BrickType::Normal));
    world.spawn_brick(Brick { despawn: true, ..brick_at(0, 220 * U, 1, BrickType::Normal) });
    world.apply_despawn();
    assert_eq!(world.balls, vec![None, Some(ball_at(0, 0, 0, 0))]);
    assert_eq!(world.bricks, vec![Some(brick_at(0, 200 * U, 1, BrickType::Normal)), None]);
}

#[test]
fn ball_rebounds_from_the_right_wall() {
    let mut world = World::new();
    world.walls.push(Wall {
        position: v(HIGHER_BOUND_X, 0),
        size: v(WALL_THICKNESS, 610 * U),
    });
    // The wall spans x 395..405; the ball reaches 386 + 10 = 396.
    world.balls.push(Some(ball_at(380 * U, 0, 375_000_000, 125_000_000)));
    let mut scoreboard = Scoreboard { score: 0 };
    world.step(&mut scoreboard, IDLE, 16);
    assert_eq!(
        world.ball(0),
        Some(ball_at(386 * U, 2 * U, -375_000_000, 125_000_000))
    );
    // Next tick it still overlaps the wall but moves away: no second turn.
    world.step(&mut scoreboard, IDLE, 2);
    assert_eq!(world.ball(0).unwrap().velocity, v(-375_000_000, 125_000_000));
}

#[test]
fn ball_moving_away_from_the_wall_is_not_turned() {
    let mut world = World::new();
    world.walls.push(Wall { position: v(LOWER_BOUND_X, 0), size: v(WALL_THICKNESS, 610 * U) });
    // The wall spans x -405..-395; the ball spans -404..-384 and moves right.
    world.balls.push(Some(ball_at(-395 * U, 0, 62_500_000, 0)));
    let mut scoreboard = Scoreboard { score: 0 };
    world.step(&mut scoreboard, IDLE, 16);
    assert_eq!(world.ball(0), Some(ball_at(-394 * U, 0, 62_500_000, 0)));
}

#[test]
fn ball_rebounds_from_the_ceiling() {
    let mut world = World::new();
    world.walls.push(Wall { position: v(0, HIGHER_BOUND_Y), size: v(810 * U, WALL_THICKNESS) });
    world.balls.push(Some(ball_at(0, 280 * U, FAST, FAST)));
    let mut scoreboard = Scoreboard { score: 0 };
    world.step(&mut scoreboard, IDLE, 16);
    assert_eq!(world.ball(0), Some(ball_at(8 * U, 288 * U, FAST, -FAST)));
}

#[test]
fn ball_rebounds_from_the_moved_paddle() {
    let mut world = World::new();
    world.paddle = Some(Paddle {
        position: v(0, PADDLE_START_Y),
        size: v(PADDLE_WIDTH, PADDLE_HEIGHT),
    });
    // Out of reach of the paddle where it stands (x -60..60), in reach once
    // it has moved right by 8 (x -52..68).
    world.balls.push(Some(ball_at(70 * U, -75 * U, 0, -FAST)));
    let mut scoreboard = Scoreboard { score: 0 };
    world.step(&mut scoreboard, PaddleInput { left: false, right: true }, 16);
    assert_eq!(world.paddle.unwrap().position, v(8 * U, PADDLE_START_Y));
    assert_eq!(world.ball(0).unwrap().position, v(70 * U, -83 * U));
    assert_eq!(world.ball(0).unwrap().velocity, v(0, FAST));
}

#[test]
fn paddle_stays_in_the_field() {
    let mut world = World::new();
    world.paddle = Some(Paddle { position: v(0, PADDLE_START_Y), size: v(PADDLE_WIDTH, PADDLE_HEIGHT) });
    let mut scoreboard = Scoreboard { score: 0 };
    for _ in 0..100 {
        world.step(&mut scoreboard, PaddleInput { left: false, right: true }, 16);
        let x = world.paddle.unwrap().position.x;
        assert!(-340 * U <= x && x <= 340 * U);
    }
    assert_eq!(world.paddle.unwrap().position.x, 340 * U);
    world.step(&mut scoreboard, PaddleInput { left: true, right: false }, u32::MAX);
    assert_eq!(world.paddle.unwrap().position.x, -340 * U);
}

#[test]
fn world_without_paddle_still_ticks() {
    let mut world = World::new();
    world.balls.push(Some(ball_at(0, 0, FAST, 0)));
    let mut scoreboard = Scoreboard { score: 0 };
    world.step(&mut scoreboard, PaddleInput { left: true, right: false }, 16);
    assert_eq!(world.paddle, None);
    assert_eq!(world.ball(0), Some(ball_at(8 * U, 0, FAST, 0)));
}

#[test]
fn spawn_ball_scales_the_direction() {
    let mut world = World::new();
    let handle = world.spawn_ball(v(1, 2), v(500_000, -500_000));
    assert_eq!(handle, 0);
    assert_eq!(world.ball(0), Some(ball_at(1, 2, 250_000_000, -250_000_000)));
    let far = world.spawn_ball(v(0, 0), v(i64::MAX, i64::MIN));
    assert_eq!(far, 1);
    assert_eq!(world.ball(1).unwrap().velocity, v(i64::MAX, i64::MIN));
}

#[test]
fn spawn_rnd_balls_adds_as_many_as_asked() {
    let mut world = World::new();
    world.balls.push(None);
    let mut rng = StdRng::seed_from_u64(9);
    world.spawn_rnd_balls(&mut rng, v(3, 4), 5);
    assert_eq!(world.balls.len(), 6);
    assert_eq!(world.ball_count(), 5);
    assert_eq!(world.ball(0), None);
    for handle in 1..6 {
        assert_eq!(world.ball(handle).unwrap().position, v(3, 4));
    }
    world.spawn_rnd_balls(&mut rng, v(3, 4), 0);
    assert_eq!(world.balls.len(), 6);
}

#[test]
fn setup_ingame_builds_the_standard_session() {
    let mut world = World::new();
    let mut scoreboard = Scoreboard { score: 77 };
    let mut rng = StdRng::seed_from_u64(10);
    world.setup_ingame(&mut scoreboard, &mut rng);
    assert_eq!(scoreboard.score, 0);
    assert_eq!(
        world.paddle,
        Some(Paddle { position: v(0, -100 * U), size: v(120 * U, 20 * U) })
    );
    assert_eq!(world.balls, vec![Some(ball_at(0, -50 * U, 250_000_000, -250_000_000))]);
    assert_eq!(
        world.walls,
        vec![
            Wall { position: v(-400 * U, 0), size: v(10 * U, 610 * U) },
            Wall { position: v(400 * U, 0), size: v(10 * U, 610 * U) },
            Wall { position: v(0, 300 * U), size: v(810 * U, 10 * U) },
        ]
    );
    assert_eq!(world.bricks.len(), 55);
    assert_eq!(world.brick_count(), 55);
    assert_eq!(world.brick(0).unwrap().position, v(-360 * U, 275 * U));
    assert_eq!(world.brick(54).unwrap().position, v(340 * U, 195 * U));
}

#[test]
fn clear_ingame_removes_everything() {
    let mut world = World::new();
    let mut scoreboard = Scoreboard { score: 0 };
    let mut rng = StdRng::seed_from_u64(11);
    world.setup_ingame(&mut scoreboard, &mut rng);
    world.clear_ingame();
    assert_eq!(world.paddle, None);
    assert!(world.balls.is_empty());
    assert!(world.bricks.is_empty());
    assert!(world.walls.is_empty());
}

#[test]
fn standard_session_runs() {
    let mut world = World::new();
    let mut scoreboard = Scoreboard { score: 0 };
    let mut rng = StdRng::seed_from_u64(12);
    world.setup_ingame(&mut scoreboard, &mut rng);
    let mut last = 0;
    for tick in 0..2000 {
        let input = PaddleInput { left: tick % 3 == 0, right: tick % 3 == 1 };
        let bricks_before = world.brick_count();
        let balls_before = world.balls.len();
        world.tick(&mut scoreboard, &mut rng, input, 16);
        assert!(scoreboard.score >= last);
        last = scoreboard.score;
        let destroyed = bricks_before - world.brick_count();
        let released = world.balls.len() - balls_before;
        assert!(released % 3 == 0);
        assert!(released <= 3 * destroyed);
        let x = world.paddle.unwrap().position.x;
        assert!(-340 * U <= x && x <= 340 * U);
        assert_eq!(world.walls.len(), 3);
        assert_eq!(world.bricks.len(), 55);
        for slot in &world.balls {
            if let Some(ball) = slot {
                assert!(!ball.despawn);
                assert!(ball.position.y >= -310 * U);
            }
        }
        for slot in &world.bricks {
            if let Some(brick) = slot {
                assert!(!brick.despawn);
                assert_eq!(brick.health, 1);
            }
        }
    }
}

#[test]
fn ball_rebounds_from_the_side_of_a_brick() {
    let mut world = World::new();
    // The brick spans x 80..120 and y 95..105; the ball spans x 62..82.
    world.spawn_brick(brick_at(100 * U, 100 * U, 2, BrickType::Normal));
    world.balls.push(Some(ball_at(72 * U, 100 * U, FAST, FAST)));
    let mut scoreboard = Scoreboard { score: 0 };
    let bursts = world.check_ball_collision(&mut scoreboard);
    assert!(bursts.is_empty());
    assert_eq!(scoreboard.score, 1);
    assert_eq!(world.ball(0), Some(ball_at(72 * U, 100 * U, -FAST, FAST)));
    // Moving away now: the same overlap turns nothing, but it is a hit.
    world.check_ball_collision(&mut scoreboard);
    assert_eq!(scoreboard.score, 2);
    assert_eq!(world.ball(0), Some(ball_at(72 * U, 100 * U, -FAST, FAST)));
    assert_eq!(world.brick(0), Some(Brick { health: 0, despawn: true, ..brick_at(100 * U, 100 * U, 2, BrickType::Normal) }));
}

#[test]
fn every_overlapping_pair_is_one_hit() {
    let mut world = World::new();
    world.paddle = Some(Paddle { position: v(0, -100 * U), size: v(PADDLE_WIDTH, PADDLE_HEIGHT) });
    world.walls.push(Wall { position: v(-400 * U, 0), size: v(WALL_THICKNESS, 610 * U) });
    world.spawn_brick(brick_at(-200 * U, 100 * U, 1, BrickType::Normal));
    world.spawn_brick(brick_at(-170 * U, 100 * U, 5, BrickType::AddTripleBall));
    world.spawn_brick(brick_at(0, 100 * U, 0, BrickType::Normal));
    world.spawn_brick(brick_at(200 * U, 100 * U, 1, BrickType::AddTripleBall));
    world.spawn_brick(brick_at(300 * U, 200 * U, 1, BrickType::Normal));
    // Overlaps the first two bricks.
    world.balls.push(Some(ball_at(-185 * U, 90 * U, 0, FAST)));
    world.balls.push(None);
    // Inside the third brick.
    world.balls.push(Some(Ball { size: v(2 * U, 2 * U), ..ball_at(0, 100 * U, FAST, 0) }));
    // Overlaps the fourth brick from above.
    world.balls.push(Some(ball_at(200 * U, 112 * U, 0, -FAST)));
    // On the paddle, at the wall, in the open: no hits.
    world.balls.push(Some(ball_at(0, -88 * U, 0, -FAST)));
    world.balls.push(Some(ball_at(-390 * U, 0, -FAST, 0)));
    world.balls.push(Some(ball_at(0, 0, FAST, FAST)));
    let mut scoreboard = Scoreboard { score: 100 };
    let bursts = world.check_ball_collision(&mut scoreboard);
    assert_eq!(scoreboard.score, 104);
    assert_eq!(bursts, vec![v(200 * U, 112 * U)]);
    assert_eq!(world.brick(0).unwrap().health, 0);
    assert!(world.brick(0).unwrap().despawn);
    assert_eq!(world.brick(1).unwrap().health, 4);
    assert!(!world.brick(1).unwrap().despawn);
    assert!(world.brick(2).unwrap().despawn);
    assert!(world.brick(3).unwrap().despawn);
    assert_eq!(world.brick(4), Some(brick_at(300 * U, 200 * U, 1, BrickType::Normal)));
    // The ball inside a brick keeps its velocity.
    assert_eq!(world.ball(2).unwrap().velocity, v(FAST, 0));
    assert_eq!(world.ball(3).unwrap().velocity, v(0, FAST));
    assert_eq!(world.ball(4).unwrap().velocity, v(0, FAST));
    assert_eq!(world.ball(5).unwrap().velocity, v(FAST, 0));
    assert_eq!(world.ball(6).unwrap().velocity, v(FAST, FAST));
    assert_eq!(world.balls.len(), 7);
    assert_eq!(world.bricks.len(), 5);
}
