//! What holds of the rules of the game, whatever the world looks like.

use vstd::prelude::*;
use crate::config::{
    BALL_SPEED, BONUS_BALLS, DIRECTION_ONE, DIRECTION_ROLL_RANGE, HIGHER_BOUND_X, LOWER_BOUND_X,
    PADDLE_WIDTH,
};
use crate::geometry::{EdgeDirection, Vec2, spec_overlap};
use crate::entity::{Ball, Brick, BrickType, Wall, spec_launch};
use crate::collision::{
    bonus_destroyed, lemma_collide, lemma_collide_bursts, lemma_collide_deflects,
    lemma_collide_hits, lemma_deflect_single, meetings, moving_toward, none_marked, obstacles,
    one_ball_per_brick, only_damaged, only_deflected, spec_add_score, spec_bounce, spec_damaged,
    spec_deflected, spec_flip, spec_reflect, spec_strike, touches,
};
use crate::direction::{
    abs, is_drawn_direction, is_unit_direction, is_unit_of, lemma_unit_of_is_unit, norm2,
};
use crate::motion::{PaddleInput, off_field, spec_advance};
use crate::world::{
    WorldView, checked, is_released, is_released_ball, occupied, population, spec_collide_world,
    spec_moved, spec_step, steered, swept_balls,
};

verus! {

/// Whether two velocity components have opposite signs.
pub open spec fn sign_flipped(before: i64, after: i64) -> bool {
    (before > 0 && after < 0) || (before < 0 && after > 0)
}

/// A collision on the left or right edge of a box flips the sign of the
/// ball's x velocity if and only if the ball was moving into that edge, and
/// leaves its y velocity as it was.
pub proof fn law_horizontal_reflection(ball: Ball, position: Vec2, size: Vec2)
    requires
        spec_overlap(ball.position, ball.size, position, size) == Some(EdgeDirection::Left)
            || spec_overlap(ball.position, ball.size, position, size) == Some(
            EdgeDirection::Right,
        ),
    ensures
        ({
            let edge = spec_overlap(ball.position, ball.size, position, size).unwrap();
            let after = spec_bounce(ball, position, size);
            &&& after.velocity.y == ball.velocity.y
            &&& sign_flipped(ball.velocity.x, after.velocity.x) <==> moving_toward(
                ball.velocity,
                edge,
            )
            &&& !moving_toward(ball.velocity, edge) ==> after.velocity.x == ball.velocity.x
        }),
{
}

/// A collision on the top or bottom edge of a box flips the sign of the
/// ball's y velocity if and only if the ball was moving into that edge, and
/// leaves its x velocity as it was.
pub proof fn law_vertical_reflection(ball: Ball, position: Vec2, size: Vec2)
    requires
        spec_overlap(ball.position, ball.size, position, size) == Some(EdgeDirection::Top)
            || spec_overlap(ball.position, ball.size, position, size) == Some(
            EdgeDirection::Bottom,
        ),
    ensures
        ({
            let edge = spec_overlap(ball.position, ball.size, position, size).unwrap();
            let after = spec_bounce(ball, position, size);
            &&& after.velocity.x == ball.velocity.x
            &&& sign_flipped(ball.velocity.y, after.velocity.y) <==> moving_toward(
                ball.velocity,
                edge,
            )
            &&& !moving_toward(ball.velocity, edge) ==> after.velocity.y == ball.velocity.y
        }),
{
}

/// A ball that is inside a box, or does not touch it, keeps its velocity.
pub proof fn law_no_reflection(ball: Ball, position: Vec2, size: Vec2)
    requires
        spec_overlap(ball.position, ball.size, position, size) is None || spec_overlap(
            ball.position,
            ball.size,
            position,
            size,
        ) == Some(EdgeDirection::Inside),
    ensures
        spec_bounce(ball, position, size) == ball,
{
}

/// A reflection changes no more than the sign of one component: the speed
/// along each axis stays. (The component `i64::MIN` has no counterpart and
/// is left out.)
pub proof fn law_reflection_keeps_speed(velocity: Vec2, edge: EdgeDirection)
    requires
        velocity.x > i64::MIN,
        velocity.y > i64::MIN,
    ensures
        abs(spec_reflect(velocity, edge).x as int) == abs(velocity.x as int),
        abs(spec_reflect(velocity, edge).y as int) == abs(velocity.y as int),
        norm2(spec_reflect(velocity, edge)) == norm2(velocity),
{
    let r = spec_reflect(velocity, edge);
    assert(r.x * r.x == velocity.x * velocity.x && r.y * r.y == velocity.y * velocity.y)
        by (nonlinear_arith)
        requires
            r.x == velocity.x || r.x == -velocity.x,
            r.y == velocity.y || r.y == -velocity.y,
    ;
}

/// What the collision phase does to the velocity of the ball in a slot: it
/// is reflected at each obstacle that the ball overlaps, in the order paddle,
/// walls, bricks, and nothing else about the ball changes. The other balls
/// make no difference to it.
pub proof fn law_collision_deflects(w: WorldView, handle: int)
    requires
        0 <= handle < w.balls.len(),
    ensures
        spec_collide_world(w).balls.len() == w.balls.len(),
        spec_collide_world(w).balls[handle] == match w.balls[handle] {
            Some(ball) => Some(spec_deflected(ball, obstacles(w.paddle, w.walls, w.bricks))),
            None => None,
        },
{
    lemma_collide(w.balls, w.paddle, w.walls, w.bricks, w.balls.len());
    lemma_collide_deflects(w.balls, w.paddle, w.walls, w.bricks, w.balls.len(), handle);
}

/// The collision phase on a ball that overlaps exactly one obstacle, be it
/// the paddle, a wall or a brick: the ball is reflected at that obstacle
/// and at nothing else. If the edge is the left or the right one, the x
/// velocity changes sign if the ball was moving into the edge and stays
/// otherwise, and the y velocity stays; likewise with x and y exchanged for
/// the top and the bottom edge. A ball inside the obstacle keeps its
/// velocity. (The sign of `i64::MIN` cannot be changed: it becomes
/// `i64::MAX`.)
pub proof fn law_single_collision(w: WorldView, handle: int, k: int)
    requires
        0 <= handle < w.balls.len(),
        w.balls[handle] is Some,
        0 <= k < obstacles(w.paddle, w.walls, w.bricks).len(),
        touches(
            w.balls[handle].unwrap().position,
            w.balls[handle].unwrap().size,
            obstacles(w.paddle, w.walls, w.bricks)[k],
        ),
        forall|j: int|
            0 <= j < obstacles(w.paddle, w.walls, w.bricks).len() && j != k ==> !touches(
                w.balls[handle].unwrap().position,
                w.balls[handle].unwrap().size,
                #[trigger] obstacles(w.paddle, w.walls, w.bricks)[j],
            ),
    ensures
        ({
            let ball = w.balls[handle].unwrap();
            let v = ball.velocity;
            let obstacle = obstacles(w.paddle, w.walls, w.bricks)[k].unwrap();
            let edge = spec_overlap(
                ball.position,
                ball.size,
                obstacle.position,
                obstacle.size,
            ).unwrap();
            let after = spec_collide_world(w).balls[handle];
            &&& after == Some(Ball { velocity: spec_reflect(v, edge), ..ball })
            &&& edge == EdgeDirection::Left || edge == EdgeDirection::Right ==> {
                &&& after.unwrap().velocity.y == v.y
                &&& after.unwrap().velocity.x == if moving_toward(v, edge) {
                    spec_flip(v.x)
                } else {
                    v.x
                }
            }
            &&& edge == EdgeDirection::Top || edge == EdgeDirection::Bottom ==> {
                &&& after.unwrap().velocity.x == v.x
                &&& after.unwrap().velocity.y == if moving_toward(v, edge) {
                    spec_flip(v.y)
                } else {
                    v.y
                }
            }
            &&& edge == EdgeDirection::Inside ==> after.unwrap().velocity == v
            &&& v.x > i64::MIN ==> spec_flip(v.x) == -v.x
            &&& v.y > i64::MIN ==> spec_flip(v.y) == -v.y
        }),
{
    let ball = w.balls[handle].unwrap();
    let all = obstacles(w.paddle, w.walls, w.bricks);
    lemma_collide_deflects(w.balls, w.paddle, w.walls, w.bricks, w.balls.len(), handle);
    lemma_deflect_single(ball.velocity, ball.position, ball.size, all, k, all.len());
}

/// One tick of a world with one ball and one wall: if the ball, once moved,
/// overlaps the wall on its left or right edge, the sign of the ball's x
/// velocity is flipped if and only if the ball was moving into that edge
/// before the tick, and its y velocity is as before the tick. The ball is
/// there after the tick unless it was marked or has dropped out of the
/// field.
pub proof fn law_tick_horizontal_reflection(ball: Ball, wall: Wall, input: PaddleInput, dt: u32)
    requires
        ({
            let moved = spec_advance(ball, dt);
            let hit = spec_overlap(moved.position, moved.size, wall.position, wall.size);
            hit == Some(EdgeDirection::Left) || hit == Some(EdgeDirection::Right)
        }),
    ensures
        ({
            let moved = spec_advance(ball, dt);
            let edge = spec_overlap(moved.position, moved.size, wall.position, wall.size).unwrap();
            let world = WorldView {
                paddle: None,
                balls: seq![Some(ball)],
                bricks: Seq::empty(),
                walls: seq![wall],
            };
            let turned = Ball { velocity: spec_reflect(ball.velocity, edge), ..moved };
            &&& turned.velocity.y == ball.velocity.y
            &&& sign_flipped(ball.velocity.x, turned.velocity.x) <==> moving_toward(
                ball.velocity,
                edge,
            )
            &&& !moving_toward(ball.velocity, edge) ==> turned.velocity.x == ball.velocity.x
            &&& spec_step(world, input, dt).world.balls == seq![
                if ball.despawn || off_field(moved) {
                    None
                } else {
                    Some(turned)
                },
            ]
        }),
{
    let moved = spec_advance(ball, dt);
    let world = WorldView {
        paddle: None,
        balls: seq![Some(ball)],
        bricks: Seq::empty(),
        walls: seq![wall],
    };
    let flown = spec_moved(world, input, dt);
    assert(flown.balls =~= seq![Some(moved)]);
    let bounced = spec_bounce(moved, wall.position, wall.size);
    reveal_with_fuel(crate::collision::spec_collide, 2);
    reveal_with_fuel(crate::collision::spec_bounce_walls, 2);
    let pass = spec_collide_world(flown);
    assert(pass.balls =~= seq![Some(bounced)]);
    assert(swept_balls(checked(pass.balls)) =~= seq![
        if ball.despawn || off_field(moved) {
            None
        } else {
            Some(bounced)
        },
    ]);
}

/// One tick of a world with one ball and one brick not yet marked: if the
/// ball, once moved, overlaps the brick, that is one hit. The ball rebounds,
/// the brick loses a point of health, and a brick left without health is
/// gone after the tick. A bonus brick that goes causes a burst at the place
/// of the ball, a normal brick never does.
pub proof fn law_tick_hit(ball: Ball, brick: Brick, input: PaddleInput, dt: u32)
    requires
        !brick.despawn,
        ({
            let moved = spec_advance(ball, dt);
            spec_overlap(moved.position, moved.size, brick.position, brick.size) is Some
        }),
    ensures
        ({
            let moved = spec_advance(ball, dt);
            let edge = spec_overlap(moved.position, moved.size, brick.position, brick.size).unwrap();
            let world = WorldView {
                paddle: None,
                balls: seq![Some(ball)],
                bricks: seq![Some(brick)],
                walls: Seq::empty(),
            };
            let step = spec_step(world, input, dt);
            &&& step.hits == 1
            &&& step.world.bricks == seq![
                if brick.health <= 1 {
                    None
                } else {
                    Some(Brick { health: (brick.health - 1) as u32, ..brick })
                },
            ]
            &&& step.bursts == if brick.health <= 1 && brick.brick_type
                == BrickType::AddTripleBall {
                seq![moved.position]
            } else {
                Seq::empty()
            }
            &&& step.world.balls == seq![
                if ball.despawn || off_field(moved) {
                    None
                } else {
                    Some(Ball { velocity: spec_reflect(ball.velocity, edge), ..moved })
                },
            ]
        }),
{
    let moved = spec_advance(ball, dt);
    let world = WorldView {
        paddle: None,
        balls: seq![Some(ball)],
        bricks: seq![Some(brick)],
        walls: Seq::empty(),
    };
    let flown = spec_moved(world, input, dt);
    assert(flown.balls =~= seq![Some(moved)]);
    reveal_with_fuel(crate::collision::spec_collide, 2);
    reveal_with_fuel(crate::collision::spec_strike_bricks, 2);
    let s = spec_strike(moved, brick);
    let pass = spec_collide_world(flown);
    assert(pass.balls =~= seq![Some(s.ball)]);
    assert(pass.bricks =~= seq![Some(s.brick)]);
    assert(pass.bursts =~= if s.burst {
        seq![moved.position]
    } else {
        Seq::empty()
    });
    let step = spec_step(world, input, dt);
    assert(step.world.bricks =~= seq![
        if brick.health <= 1 {
            None
        } else {
            Some(Brick { health: (brick.health - 1) as u32, ..brick })
        },
    ]);
    assert(step.world.balls =~= seq![
        if ball.despawn || off_field(moved) {
            None
        } else {
            Some(s.ball)
        },
    ]);
}

/// A hit costs a brick one point of health and never takes it below zero;
/// the brick is marked for removal exactly when no health is left.
pub proof fn law_hit_damage(brick: Brick)
    ensures
        spec_damaged(brick).health == if brick.health >= 1 {
            brick.health - 1
        } else {
            0
        },
        spec_damaged(brick).health >= 0,
        spec_damaged(brick).despawn <==> spec_damaged(brick).health == 0,
{
}

/// Every meeting of a ball and a brick not yet marked for removal scores
/// exactly once, whatever the kind of the brick and whether or not the hit
/// destroys it. Nothing else scores.
pub proof fn law_hit_scores(ball: Ball, brick: Brick)
    ensures
        spec_strike(ball, brick).scored <==> !brick.despawn && spec_overlap(
            ball.position,
            ball.size,
            brick.position,
            brick.size,
        ) is Some,
        spec_strike(ball, brick).burst <==> spec_strike(ball, brick).scored && brick.health <= 1
            && brick.brick_type == BrickType::AddTripleBall,
        spec_strike(ball, brick).scored ==> spec_strike(ball, brick).brick == spec_damaged(brick),
        !spec_strike(ball, brick).scored ==> spec_strike(ball, brick).brick == brick,
{
}

/// The hits of the collision phase on a world in which no brick is marked
/// and no brick is overlapped by more than one ball: one hit for each pair
/// of a ball and a brick that overlap, whatever the edge, the kind of the
/// brick and its health. What a ball does at the paddle or at a wall is no
/// hit. The score rises by that number, unless it reaches the largest value
/// it can hold.
pub proof fn law_hits_count_meetings(w: WorldView, score: u64)
    requires
        none_marked(w.bricks),
        one_ball_per_brick(w.balls, w.bricks),
    ensures
        spec_collide_world(w).hits == meetings(w.balls, w.bricks, w.balls.len()),
        score + meetings(w.balls, w.bricks, w.balls.len()) <= u64::MAX ==> spec_add_score(
            score,
            spec_collide_world(w).hits,
        ) == score + meetings(w.balls, w.bricks, w.balls.len()),
{
    lemma_collide_hits(w.balls, w.paddle, w.walls, w.bricks, w.balls.len());
}

/// The score never falls, and it rises by exactly the number of hits unless
/// it has reached the largest value it can hold.
pub proof fn law_score(score: u64, hits: nat)
    ensures
        spec_add_score(score, hits) >= score,
        score + hits <= u64::MAX ==> spec_add_score(score, hits) == score + hits,
{
}

/// After any tick the paddle lies between the sides of the field, however
/// long the tick and whatever the input.
pub proof fn law_paddle_stays_in_field(w: WorldView, input: PaddleInput, dt: u32)
    requires
        w.paddle is Some,
    ensures
        spec_step(w, input, dt).world.paddle is Some,
        LOWER_BOUND_X + PADDLE_WIDTH / 2 <= spec_step(
            w,
            input,
            dt,
        ).world.paddle.unwrap().position.x <= HIGHER_BOUND_X - PADDLE_WIDTH / 2,
{
}

/// What a tick does to the brick in a slot. No brick gains health in a
/// tick, and a brick is marked only once its health is zero. A marked brick
/// is removed in the same tick, an unmarked brick is never removed, and an
/// empty slot stays empty: a brick is removed only once.
pub proof fn law_brick_removal(w: WorldView, input: PaddleInput, dt: u32, handle: int)
    requires
        0 <= handle < w.bricks.len(),
    ensures
        ({
            let pass = spec_collide_world(spec_moved(w, input, dt));
            let after = spec_step(w, input, dt).world.bricks;
            &&& pass.bricks.len() == w.bricks.len()
            &&& after.len() == w.bricks.len()
            &&& match w.bricks[handle] {
                None => after[handle] is None,
                Some(brick) => {
                    &&& pass.bricks[handle] is Some
                    &&& only_damaged(brick, pass.bricks[handle].unwrap())
                    &&& after[handle] == if pass.bricks[handle].unwrap().despawn {
                        None
                    } else {
                        pass.bricks[handle]
                    }
                },
            }
            &&& after[handle] is Some ==> !after[handle].unwrap().despawn
        }),
{
    let flown = spec_moved(w, input, dt);
    lemma_collide(flown.balls, flown.paddle, flown.walls, flown.bricks, flown.balls.len());
}

/// What a tick does to the ball in a slot. The ball moves; then its
/// velocity is reflected at each obstacle that it overlaps where it now is,
/// the paddle being where it has moved to. Collisions move no ball and mark
/// none. A ball is removed by the end of the tick if it was marked or if,
/// once moved, it has dropped out of the field; no other ball is removed.
/// An empty slot stays empty.
pub proof fn law_ball_removal(w: WorldView, input: PaddleInput, dt: u32, handle: int)
    requires
        0 <= handle < w.balls.len(),
    ensures
        ({
            let pass = spec_collide_world(spec_moved(w, input, dt));
            let after = spec_step(w, input, dt).world.balls;
            &&& pass.balls.len() == w.balls.len()
            &&& after.len() == w.balls.len()
            &&& match w.balls[handle] {
                None => after[handle] is None,
                Some(ball) => {
                    let moved = spec_advance(ball, dt);
                    &&& pass.balls[handle] == Some(
                        spec_deflected(
                            moved,
                            obstacles(steered(w.paddle, input, dt), w.walls, w.bricks),
                        ),
                    )
                    &&& only_deflected(moved, pass.balls[handle].unwrap())
                    &&& after[handle] == if ball.despawn || off_field(moved) {
                        None
                    } else {
                        pass.balls[handle]
                    }
                },
            }
            &&& after[handle] is Some ==> !after[handle].unwrap().despawn && !off_field(
                after[handle].unwrap(),
            )
        }),
{
    let flown = spec_moved(w, input, dt);
    lemma_collide(flown.balls, flown.paddle, flown.walls, flown.bricks, flown.balls.len());
    lemma_collide_deflects(
        flown.balls,
        flown.paddle,
        flown.walls,
        flown.bricks,
        flown.balls.len(),
        handle,
    );
}

/// A tick causes one burst for each bonus brick that it destroys, so that
/// `BONUS_BALLS` balls are released for each such brick and for nothing else.
pub proof fn law_bursts(w: WorldView, input: PaddleInput, dt: u32)
    ensures
        spec_step(w, input, dt).bursts.len() == bonus_destroyed(
            w.bricks,
            spec_collide_world(spec_moved(w, input, dt)).bricks,
            w.bricks.len(),
        ),
{
    let flown = spec_moved(w, input, dt);
    lemma_collide_bursts(flown.balls, flown.paddle, flown.walls, flown.bricks, flown.balls.len());
}

/// The balls that bonus bricks release: exactly `BONUS_BALLS` for each
/// burst, added behind the balls that were there.
pub proof fn law_release_count(
    before: Seq<Option<Ball>>,
    balls: Seq<Option<Ball>>,
    bursts: Seq<Vec2>,
)
    requires
        is_released(before, balls, bursts),
    ensures
        BONUS_BALLS == 3,
        balls.len() - before.len() == 3 * bursts.len(),
        population(balls) == population(before) + 3 * bursts.len(),
{
    lemma_occupied_subrange(balls, before.len(), before.len());
    lemma_occupied_tail(balls, before.len(), balls.len());
}

proof fn lemma_occupied_subrange<T>(slots: Seq<Option<T>>, len: nat, n: nat)
    requires
        n <= len <= slots.len(),
    ensures
        occupied(slots.subrange(0, len as int), n) == occupied(slots, n),
    decreases n,
{
    if n > 0 {
        lemma_occupied_subrange(slots, len, (n - 1) as nat);
    }
}

proof fn lemma_occupied_tail<T>(slots: Seq<Option<T>>, from: nat, n: nat)
    requires
        from <= n <= slots.len(),
        forall|i: int| from <= i < slots.len() ==> (#[trigger] slots[i]) is Some,
    ensures
        occupied(slots, n) == occupied(slots, from) + (n - from),
    decreases n,
{
    if n > from {
        lemma_occupied_tail(slots, from, (n - 1) as nat);
        assert(slots[n - 1] is Some);
    }
}

/// A released ball is not marked, has the size of a ball, starts at the
/// place of its release, and flies at `BALL_SPEED` up to rounding: its
/// velocity is a direction of unit length times the speed.
pub proof fn law_released_ball(ball: Ball, position: Vec2)
    requires
        is_released_ball(ball, position),
    ensures
        ball.position == position,
        !ball.despawn,
        (ball.velocity.x as int) % (BALL_SPEED as int) == 0,
        (ball.velocity.y as int) % (BALL_SPEED as int) == 0,
        is_unit_direction(
            Vec2 {
                x: ((ball.velocity.x as int) / (BALL_SPEED as int)) as i64,
                y: ((ball.velocity.y as int) / (BALL_SPEED as int)) as i64,
            },
        ),
        norm2(ball.velocity) <= (BALL_SPEED * DIRECTION_ONE) * (BALL_SPEED * DIRECTION_ONE),
        norm2(ball.velocity) > (BALL_SPEED * (DIRECTION_ONE - 3)) * (BALL_SPEED * (DIRECTION_ONE
            - 3)),
{
    let d = choose|d: Vec2| is_drawn_direction(d) && ball == #[trigger] spec_launch(position, d);
    let (x, y) = choose|x: int, y: int|
        -DIRECTION_ROLL_RANGE <= x < DIRECTION_ROLL_RANGE && -DIRECTION_ROLL_RANGE <= y
            < DIRECTION_ROLL_RANGE && #[trigger] is_unit_of(d, x, y);
    lemma_unit_of_is_unit(d, x, y);
    let one = DIRECTION_ONE as int;
    let a = abs(d.x as int);
    let b = abs(d.y as int);
    assert(a * a == d.x * d.x && b * b == d.y * d.y) by (nonlinear_arith)
        requires
            a == d.x || a == -d.x,
            b == d.y || b == -d.y,
    ;
    assert(a <= one && b <= one) by (nonlinear_arith)
        requires
            a * a + b * b <= one * one,
            a >= 0,
            b >= 0,
            one >= 0,
    ;
    assert(one == 1_000_000 && BALL_SPEED == 500);
    assert(ball.velocity.x == d.x * 500);
    assert(ball.velocity.y == d.y * 500);
    assert(norm2(ball.velocity) == 250_000 * (a * a + b * b)) by (nonlinear_arith)
        requires
            ball.velocity.x == d.x * 500,
            ball.velocity.y == d.y * 500,
            a * a == d.x * d.x,
            b * b == d.y * d.y,
    ;
    assert(a * a + b * b > (one - 3) * (one - 3)) by (nonlinear_arith)
        requires
            (a + 1) * (a + 1) + (b + 1) * (b + 1) > one * one,
            0 <= a <= one,
            0 <= b <= one,
            one == 1_000_000,
    ;
    assert((BALL_SPEED * DIRECTION_ONE) * (BALL_SPEED * DIRECTION_ONE) == 250_000 * (one * one))
        by (nonlinear_arith)
        requires
            BALL_SPEED == 500,
            DIRECTION_ONE == one,
    ;
    assert((BALL_SPEED * (DIRECTION_ONE - 3)) * (BALL_SPEED * (DIRECTION_ONE - 3)) == 250_000 * ((
        one - 3) * (one - 3))) by (nonlinear_arith)
        requires
            BALL_SPEED == 500,
            DIRECTION_ONE == one,
    ;
}

/// A table holds no object exactly when every slot is empty, and never more
/// objects than slots.
pub proof fn law_population<T>(slots: Seq<Option<T>>)
    ensures
        population(slots) <= slots.len(),
        population(slots) == 0 <==> forall|i: int|
            0 <= i < slots.len() ==> (#[trigger] slots[i]) is None,
{
    lemma_occupied_bounds(slots, slots.len());
}

proof fn lemma_occupied_bounds<T>(slots: Seq<Option<T>>, n: nat)
    requires
        n <= slots.len(),
    ensures
        occupied(slots, n) <= n,
        occupied(slots, n) == 0 <==> forall|i: int| 0 <= i < n ==> (#[trigger] slots[i]) is None,
    decreases n,
{
    if n > 0 {
        lemma_occupied_bounds(slots, (n - 1) as nat);
        if occupied(slots, n) == 0 {
            assert forall|i: int| 0 <= i < n implies (#[trigger] slots[i]) is None by {
                if i < n - 1 {
                } else {
                    assert(slots[n - 1] is None);
                }
            }
        }
    }
}

} // verus!
