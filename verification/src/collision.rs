//! Collision response: how a ball rebounds and what a hit does to a brick.

use vstd::prelude::*;
use crate::geometry::{Vec2, EdgeDirection, spec_overlap, overlap};
use crate::entity::{Ball, Brick, BrickType, Collidable, Paddle, Scoreboard, Wall};

verus! {

/// Whether a ball with this velocity is moving into the given edge.
pub open spec fn moving_toward(velocity: Vec2, edge: EdgeDirection) -> bool {
    match edge {
        EdgeDirection::Left => velocity.x > 0,
        EdgeDirection::Right => velocity.x < 0,
        EdgeDirection::Top => velocity.y < 0,
        EdgeDirection::Bottom => velocity.y > 0,
        EdgeDirection::Inside => false,
    }
}

/// A velocity component with its sign flipped. The one value without a
/// counterpart, `i64::MIN`, becomes `i64::MAX`.
pub open spec fn spec_flip(v: i64) -> i64 {
    if v == i64::MIN {
        i64::MAX
    } else {
        (-v) as i64
    }
}

/// The velocity after a collision on `edge`: the component across the edge
/// changes sign if the ball was moving into the edge; nothing else changes.
pub open spec fn spec_reflect(velocity: Vec2, edge: EdgeDirection) -> Vec2 {
    if !moving_toward(velocity, edge) {
        velocity
    } else {
        match edge {
            EdgeDirection::Left | EdgeDirection::Right => Vec2 {
                x: spec_flip(velocity.x),
                y: velocity.y,
            },
            _ => Vec2 { x: velocity.x, y: spec_flip(velocity.y) },
        }
    }
}

fn flip(v: i64) -> (r: i64)
    ensures
        r == spec_flip(v),
{
    if v == i64::MIN {
        i64::MAX
    } else {
        -v
    }
}

/// Reflects a velocity off the given edge of a stationary box.
pub fn reflect(velocity: Vec2, edge: EdgeDirection) -> (r: Vec2)
    ensures
        r == spec_reflect(velocity, edge),
{
    let mut reflect_x = false;
    let mut reflect_y = false;
    match edge {
        EdgeDirection::Left => reflect_x = velocity.x > 0,
        EdgeDirection::Right => reflect_x = velocity.x < 0,
        EdgeDirection::Top => reflect_y = velocity.y < 0,
        EdgeDirection::Bottom => reflect_y = velocity.y > 0,
        EdgeDirection::Inside => {},
    }
    let mut r = velocity;
    if reflect_x {
        r.x = flip(r.x);
    }
    if reflect_y {
        r.y = flip(r.y);
    }
    r
}

/// The ball after meeting a box at `position` with extent `size`: its
/// velocity is reflected if the two overlap; nothing else changes.
pub open spec fn spec_bounce(ball: Ball, position: Vec2, size: Vec2) -> Ball {
    match spec_overlap(ball.position, ball.size, position, size) {
        Some(edge) => Ball { velocity: spec_reflect(ball.velocity, edge), ..ball },
        None => ball,
    }
}

/// Lets the ball rebound from `other` if they overlap.
pub fn bounce<C: Collidable>(ball: Ball, other: &C) -> (r: Ball)
    ensures
        r == spec_bounce(ball, other.center(), other.extent()),
{
    match overlap(ball.position, ball.size, other.position(), other.size()) {
        Some(edge) => Ball { velocity: reflect(ball.velocity, edge), ..ball },
        None => ball,
    }
}

/// A brick after one hit: one point of health less, not below zero, and
/// marked for removal once its health is zero.
pub open spec fn spec_damaged(brick: Brick) -> Brick {
    let health: u32 = if brick.health > 0 {
        (brick.health - 1) as u32
    } else {
        0
    };
    Brick { health, despawn: health == 0, ..brick }
}

/// What one meeting of a ball and a brick leads to.
#[derive(Clone, Copy, Debug, PartialEq, Eq, Structural)]
pub struct Strike {
    /// The ball afterwards.
    pub ball: Ball,
    /// The brick afterwards.
    pub brick: Brick,
    /// Whether the meeting counts as a hit and earns a point.
    pub scored: bool,
    /// Whether the hit destroyed a bonus brick, which releases new balls.
    pub burst: bool,
}

/// One ball against one brick. If they overlap the ball rebounds. A brick
/// that is not yet marked for removal is then hit: the hit scores, costs the
/// brick one point of health, and marks it once its health is zero. A brick
/// already marked still deflects the ball but is not hit again.
pub open spec fn spec_strike(ball: Ball, brick: Brick) -> Strike {
    match spec_overlap(ball.position, ball.size, brick.position, brick.size) {
        None => Strike { ball, brick, scored: false, burst: false },
        Some(edge) => {
            let rebound = Ball { velocity: spec_reflect(ball.velocity, edge), ..ball };
            if brick.despawn {
                Strike { ball: rebound, brick, scored: false, burst: false }
            } else {
                let damaged = spec_damaged(brick);
                Strike {
                    ball: rebound,
                    brick: damaged,
                    scored: true,
                    burst: damaged.despawn && brick.brick_type == BrickType::AddTripleBall,
                }
            }
        },
    }
}

/// Resolves one ball against one brick.
pub fn strike(ball: Ball, brick: Brick) -> (s: Strike)
    ensures
        s == spec_strike(ball, brick),
{
    match overlap(ball.position, ball.size, brick.position, brick.size) {
        None => Strike { ball, brick, scored: false, burst: false },
        Some(edge) => {
            let rebound = Ball { velocity: reflect(ball.velocity, edge), ..ball };
            if brick.despawn {
                Strike { ball: rebound, brick, scored: false, burst: false }
            } else {
                let health: u32 = if brick.health > 0 {
                    brick.health - 1
                } else {
                    0
                };
                let destroyed = health == 0;
                let burst = match brick.brick_type {
                    BrickType::AddTripleBall => destroyed,
                    BrickType::Normal => false,
                };
                Strike {
                    ball: rebound,
                    brick: Brick { health, despawn: destroyed, ..brick },
                    scored: true,
                    burst,
                }
            }
        },
    }
}

/// The ball after meeting the first `n` of the walls, one after another.
pub open spec fn spec_bounce_walls(ball: Ball, walls: Seq<Wall>, n: nat) -> Ball
    decreases n,
{
    if n == 0 {
        ball
    } else {
        let wall = walls[n - 1];
        spec_bounce(spec_bounce_walls(ball, walls, (n - 1) as nat), wall.position, wall.size)
    }
}

/// Lets the ball rebound from each wall in turn.
pub fn bounce_walls(ball: Ball, walls: &Vec<Wall>) -> (r: Ball)
    ensures
        r == spec_bounce_walls(ball, walls@, walls@.len()),
{
    let mut r = ball;
    let mut j: usize = 0;
    while j < walls.len()
        invariant
            j <= walls.len(),
            r == spec_bounce_walls(ball, walls@, j as nat),
        decreases walls.len() - j,
    {
        r = bounce(r, &walls[j]);
        j += 1;
    }
    r
}

/// A score raised by `hits` points. The score stops at the largest value it
/// can hold.
pub open spec fn spec_add_score(score: u64, hits: nat) -> u64 {
    if score + hits > u64::MAX {
        u64::MAX
    } else {
        (score + hits) as u64
    }
}

/// What one ball's passage over the bricks leads to.
pub struct BrickPass {
    /// The ball afterwards.
    pub ball: Ball,
    /// The brick table afterwards, nothing removed yet.
    pub bricks: Seq<Option<Brick>>,
    /// The number of hits, each worth a point.
    pub hits: nat,
    /// Where a bonus brick was destroyed: the position of the ball then.
    pub bursts: Seq<Vec2>,
}

/// One ball against the first `n` slots of the brick table, one after
/// another. An empty slot is passed over.
pub open spec fn spec_strike_bricks(ball: Ball, bricks: Seq<Option<Brick>>, n: nat) -> BrickPass
    decreases n,
{
    if n == 0 {
        BrickPass { ball, bricks, hits: 0, bursts: Seq::empty() }
    } else {
        let before = spec_strike_bricks(ball, bricks, (n - 1) as nat);
        match before.bricks[n - 1] {
            None => before,
            Some(brick) => {
                let s = spec_strike(before.ball, brick);
                BrickPass {
                    ball: s.ball,
                    bricks: before.bricks.update(n - 1, Some(s.brick)),
                    hits: before.hits + if s.scored {
                        1nat
                    } else {
                        0nat
                    },
                    bursts: if s.burst {
                        before.bursts.push(s.ball.position)
                    } else {
                        before.bursts
                    },
                }
            },
        }
    }
}

/// Resolves one ball against every brick in turn: the bricks are damaged in
/// place, each hit earns a point, and the place of each destroyed bonus
/// brick's hit is appended to `bursts`.
pub fn strike_bricks(
    ball: Ball,
    bricks: &mut Vec<Option<Brick>>,
    scoreboard: &mut Scoreboard,
    bursts: &mut Vec<Vec2>,
) -> (r: Ball)
    ensures
        r == spec_strike_bricks(ball, old(bricks)@, old(bricks)@.len()).ball,
        final(bricks)@ == spec_strike_bricks(ball, old(bricks)@, old(bricks)@.len()).bricks,
        final(bricks)@.len() == old(bricks)@.len(),
        final(scoreboard).score == spec_add_score(
            old(scoreboard).score,
            spec_strike_bricks(ball, old(bricks)@, old(bricks)@.len()).hits,
        ),
        final(bursts)@ == old(bursts)@ + spec_strike_bricks(
            ball,
            old(bricks)@,
            old(bricks)@.len(),
        ).bursts,
{
    let mut r = ball;
    let mut j: usize = 0;
    assert(bursts@ =~= old(bursts)@ + Seq::<Vec2>::empty());
    while j < bricks.len()
        invariant
            j <= bricks.len(),
            bricks@.len() == old(bricks)@.len(),
            r == spec_strike_bricks(ball, old(bricks)@, j as nat).ball,
            bricks@ == spec_strike_bricks(ball, old(bricks)@, j as nat).bricks,
            scoreboard.score == spec_add_score(
                old(scoreboard).score,
                spec_strike_bricks(ball, old(bricks)@, j as nat).hits,
            ),
            bursts@ == old(bursts)@ + spec_strike_bricks(ball, old(bricks)@, j as nat).bursts,
        decreases bricks.len() - j,
    {
        let ghost before = spec_strike_bricks(ball, old(bricks)@, j as nat);
        let slot = bricks[j];
        match slot {
            None => {},
            Some(brick) => {
                let s = strike(r, brick);
                bricks.set(j, Some(s.brick));
                if s.scored {
                    if scoreboard.score < u64::MAX {
                        scoreboard.score = scoreboard.score + 1;
                    }
                }
                if s.burst {
                    bursts.push(s.ball.position);
                    assert(bursts@ =~= old(bursts)@ + before.bursts.push(s.ball.position));
                }
                r = s.ball;
            },
        }
        j += 1;
    }
    r
}

/// One ball against everything it can run into: first the paddle, then the
/// walls, then the bricks.
pub open spec fn spec_ball_pass(
    ball: Ball,
    paddle: Option<Paddle>,
    walls: Seq<Wall>,
    bricks: Seq<Option<Brick>>,
) -> BrickPass {
    let off_paddle = match paddle {
        Some(p) => spec_bounce(ball, p.position, p.size),
        None => ball,
    };
    let off_walls = spec_bounce_walls(off_paddle, walls, walls.len());
    spec_strike_bricks(off_walls, bricks, bricks.len())
}

/// What the collision phase of one tick leads to.
pub struct CollisionPass {
    /// The ball table afterwards.
    pub balls: Seq<Option<Ball>>,
    /// The brick table afterwards, nothing removed yet.
    pub bricks: Seq<Option<Brick>>,
    /// The number of hits, each worth a point.
    pub hits: nat,
    /// Where bonus bricks were destroyed, in the order of the hits.
    pub bursts: Seq<Vec2>,
}

/// The balls in the first `n` slots of the ball table, one after another,
/// against everything they can run into. A later ball meets the bricks as
/// the earlier balls left them: several balls can hit one brick in one tick
/// and each hit counts, until the brick is marked. An empty slot is passed
/// over.
pub open spec fn spec_collide(
    balls: Seq<Option<Ball>>,
    paddle: Option<Paddle>,
    walls: Seq<Wall>,
    bricks: Seq<Option<Brick>>,
    n: nat,
) -> CollisionPass
    decreases n,
{
    if n == 0 {
        CollisionPass { balls, bricks, hits: 0, bursts: Seq::empty() }
    } else {
        let before = spec_collide(balls, paddle, walls, bricks, (n - 1) as nat);
        match before.balls[n - 1] {
            None => before,
            Some(ball) => {
                let pass = spec_ball_pass(ball, paddle, walls, before.bricks);
                CollisionPass {
                    balls: before.balls.update(n - 1, Some(pass.ball)),
                    bricks: pass.bricks,
                    hits: before.hits + pass.hits,
                    bursts: before.bursts + pass.bursts,
                }
            },
        }
    }
}

/// Whether `after` is `before` except, possibly, for its velocity.
pub open spec fn only_deflected(before: Ball, after: Ball) -> bool {
    after == (Ball { velocity: after.velocity, ..before })
}

/// Whether `after` can be what collisions make of the brick `before`: it
/// stays where it is and what it is, its health does not rise, a brick
/// already marked is left alone, and a brick is marked only without health.
pub open spec fn only_damaged(before: Brick, after: Brick) -> bool {
    &&& after.position == before.position
    &&& after.size == before.size
    &&& after.brick_type == before.brick_type
    &&& after.health <= before.health
    &&& before.despawn ==> after == before
    &&& after.despawn && !before.despawn ==> after.health == 0
}

/// `only_deflected` for a slot of the ball table: an empty slot stays empty,
/// a ball stays in its slot.
pub open spec fn slot_only_deflected(before: Option<Ball>, after: Option<Ball>) -> bool {
    match (before, after) {
        (None, None) => true,
        (Some(b), Some(a)) => only_deflected(b, a),
        _ => false,
    }
}

/// `only_damaged` for a slot of the brick table: an empty slot stays empty,
/// a brick stays in its slot.
pub open spec fn slot_only_damaged(before: Option<Brick>, after: Option<Brick>) -> bool {
    match (before, after) {
        (None, None) => true,
        (Some(b), Some(a)) => only_damaged(b, a),
        _ => false,
    }
}

/// What the walls leave alone: everything about the ball but its velocity.
pub proof fn lemma_bounce_walls(ball: Ball, walls: Seq<Wall>, n: nat)
    ensures
        only_deflected(ball, spec_bounce_walls(ball, walls, n)),
    decreases n,
{
    if n > 0 {
        lemma_bounce_walls(ball, walls, (n - 1) as nat);
    }
}

/// What one ball's passage over the first `n` slots of the brick table
/// leaves alone: the ball but for its velocity, the place and kind of every
/// brick, and every slot beyond the first `n`. No brick gains health, and a
/// brick is marked only without health. There are at most `n` hits, at most
/// one burst per hit, and every burst is at the ball's position.
pub proof fn lemma_strike_bricks(ball: Ball, bricks: Seq<Option<Brick>>, n: nat)
    requires
        n <= bricks.len(),
    ensures
        ({
            let pass = spec_strike_bricks(ball, bricks, n);
            &&& only_deflected(ball, pass.ball)
            &&& pass.bricks.len() == bricks.len()
            &&& forall|j: int|
                0 <= j < bricks.len() ==> slot_only_damaged(bricks[j], #[trigger] pass.bricks[j])
            &&& forall|j: int| n <= j < bricks.len() ==> #[trigger] pass.bricks[j] == bricks[j]
            &&& pass.hits <= n
            &&& pass.bursts.len() <= pass.hits
            &&& forall|k: int| 0 <= k < pass.bursts.len() ==> #[trigger] pass.bursts[k] == ball.position
        }),
    decreases n,
{
    if n > 0 {
        lemma_strike_bricks(ball, bricks, (n - 1) as nat);
        let before = spec_strike_bricks(ball, bricks, (n - 1) as nat);
        let pass = spec_strike_bricks(ball, bricks, n);
        assert forall|j: int| 0 <= j < bricks.len() implies slot_only_damaged(
            bricks[j],
            #[trigger] pass.bricks[j],
        ) by {
            assert(slot_only_damaged(bricks[j], before.bricks[j]));
        }
    }
}

/// What one ball's passage over everything leaves alone: as for its passage
/// over the bricks.
pub proof fn lemma_ball_pass(
    ball: Ball,
    paddle: Option<Paddle>,
    walls: Seq<Wall>,
    bricks: Seq<Option<Brick>>,
)
    ensures
        ({
            let pass = spec_ball_pass(ball, paddle, walls, bricks);
            &&& only_deflected(ball, pass.ball)
            &&& pass.bricks.len() == bricks.len()
            &&& forall|j: int|
                0 <= j < bricks.len() ==> slot_only_damaged(bricks[j], #[trigger] pass.bricks[j])
            &&& pass.hits <= bricks.len()
            &&& pass.bursts.len() <= pass.hits
            &&& forall|k: int| 0 <= k < pass.bursts.len() ==> #[trigger] pass.bursts[k] == ball.position
        }),
{
    let off_paddle = match paddle {
        Some(p) => spec_bounce(ball, p.position, p.size),
        None => ball,
    };
    lemma_bounce_walls(off_paddle, walls, walls.len());
    let off_walls = spec_bounce_walls(off_paddle, walls, walls.len());
    lemma_strike_bricks(off_walls, bricks, bricks.len());
}

/// What the collision phase on the first `n` slots of the ball table leaves
/// alone: every ball but for its velocity, every slot beyond the first `n`,
/// and the place and kind of every brick. Every ball and every brick stays
/// in its slot. No brick gains health, a brick is marked only without
/// health, and there is at most one burst per hit.
pub proof fn lemma_collide(
    balls: Seq<Option<Ball>>,
    paddle: Option<Paddle>,
    walls: Seq<Wall>,
    bricks: Seq<Option<Brick>>,
    n: nat,
)
    requires
        n <= balls.len(),
    ensures
        ({
            let pass = spec_collide(balls, paddle, walls, bricks, n);
            &&& pass.balls.len() == balls.len()
            &&& pass.bricks.len() == bricks.len()
            &&& forall|i: int|
                0 <= i < balls.len() ==> slot_only_deflected(balls[i], #[trigger] pass.balls[i])
            &&& forall|i: int| n <= i < balls.len() ==> #[trigger] pass.balls[i] == balls[i]
            &&& forall|j: int|
                0 <= j < bricks.len() ==> slot_only_damaged(bricks[j], #[trigger] pass.bricks[j])
            &&& pass.hits <= n * bricks.len()
            &&& pass.bursts.len() <= pass.hits
        }),
    decreases n,
{
    if n > 0 {
        lemma_collide(balls, paddle, walls, bricks, (n - 1) as nat);
        let before = spec_collide(balls, paddle, walls, bricks, (n - 1) as nat);
        let pass = spec_collide(balls, paddle, walls, bricks, n);
        assert(before.hits <= n * bricks.len()) by (nonlinear_arith)
            requires
                before.hits <= (n - 1) * bricks.len(),
        ;
        match before.balls[n - 1] {
            None => {},
            Some(ball) => {
                lemma_ball_pass(ball, paddle, walls, before.bricks);
                let one = spec_ball_pass(ball, paddle, walls, before.bricks);
                assert forall|j: int| 0 <= j < bricks.len() implies slot_only_damaged(
                    bricks[j],
                    #[trigger] pass.bricks[j],
                ) by {
                    assert(slot_only_damaged(bricks[j], before.bricks[j]));
                    assert(slot_only_damaged(before.bricks[j], one.bricks[j]));
                }
                assert forall|i: int| 0 <= i < balls.len() implies slot_only_deflected(
                    balls[i],
                    #[trigger] pass.balls[i],
                ) by {
                    assert(slot_only_deflected(balls[i], before.balls[i]));
                }
                assert(pass.hits <= n * bricks.len()) by (nonlinear_arith)
                    requires
                        pass.hits == before.hits + one.hits,
                        before.hits <= (n - 1) * bricks.len(),
                        one.hits <= bricks.len(),
                ;
            },
        }
    }
}

/// Whether a slot holds a bonus brick that went from unmarked to marked.
pub open spec fn is_bonus_destroyed(before: Option<Brick>, after: Option<Brick>) -> bool {
    match (before, after) {
        (Some(b), Some(a)) => !b.despawn && a.despawn && b.brick_type
            == BrickType::AddTripleBall,
        _ => false,
    }
}

/// The number of bonus bricks in the first `n` slots that went from unmarked
/// in `before` to marked in `after`.
pub open spec fn bonus_destroyed(before: Seq<Option<Brick>>, after: Seq<Option<Brick>>, n: nat) -> nat
    decreases n,
{
    if n == 0 {
        0
    } else {
        bonus_destroyed(before, after, (n - 1) as nat) + if is_bonus_destroyed(
            before[n - 1],
            after[n - 1],
        ) {
            1nat
        } else {
            0nat
        }
    }
}

proof fn lemma_bonus_destroyed_agrees(
    before: Seq<Option<Brick>>,
    after: Seq<Option<Brick>>,
    other: Seq<Option<Brick>>,
    n: nat,
)
    requires
        forall|j: int| 0 <= j < n ==> after[j] == other[j],
    ensures
        bonus_destroyed(before, after, n) == bonus_destroyed(before, other, n),
    decreases n,
{
    if n > 0 {
        lemma_bonus_destroyed_agrees(before, after, other, (n - 1) as nat);
    }
}

proof fn lemma_bonus_destroyed_none(
    bricks: Seq<Option<Brick>>,
    after: Seq<Option<Brick>>,
    from: nat,
    n: nat,
)
    requires
        from <= n,
        forall|j: int| from <= j < n ==> after[j] == bricks[j],
    ensures
        bonus_destroyed(bricks, after, n) == bonus_destroyed(bricks, after, from),
    decreases n,
{
    if n > from {
        lemma_bonus_destroyed_none(bricks, after, from, (n - 1) as nat);
    }
}

proof fn lemma_bonus_destroyed_adds(
    a: Seq<Option<Brick>>,
    b: Seq<Option<Brick>>,
    c: Seq<Option<Brick>>,
    n: nat,
)
    requires
        forall|j: int|
            0 <= j < n ==> slot_only_damaged(a[j], b[j]) && slot_only_damaged(b[j], c[j]),
    ensures
        bonus_destroyed(a, c, n) == bonus_destroyed(a, b, n) + bonus_destroyed(b, c, n),
    decreases n,
{
    if n > 0 {
        lemma_bonus_destroyed_adds(a, b, c, (n - 1) as nat);
        assert(slot_only_damaged(a[n - 1], b[n - 1]) && slot_only_damaged(b[n - 1], c[n - 1]));
    }
}

proof fn lemma_strike_bricks_bursts(ball: Ball, bricks: Seq<Option<Brick>>, n: nat)
    requires
        n <= bricks.len(),
    ensures
        spec_strike_bricks(ball, bricks, n).bursts.len() == bonus_destroyed(
            bricks,
            spec_strike_bricks(ball, bricks, n).bricks,
            n,
        ),
    decreases n,
{
    if n > 0 {
        let before = spec_strike_bricks(ball, bricks, (n - 1) as nat);
        let pass = spec_strike_bricks(ball, bricks, n);
        lemma_strike_bricks_bursts(ball, bricks, (n - 1) as nat);
        lemma_strike_bricks(ball, bricks, (n - 1) as nat);
        assert(before.bricks[n - 1] == bricks[n - 1]);
        lemma_bonus_destroyed_agrees(bricks, pass.bricks, before.bricks, (n - 1) as nat);
    }
}

/// One ball's passage over the bricks causes one burst for each bonus brick
/// that it destroys.
pub proof fn lemma_ball_pass_bursts(
    ball: Ball,
    paddle: Option<Paddle>,
    walls: Seq<Wall>,
    bricks: Seq<Option<Brick>>,
)
    ensures
        spec_ball_pass(ball, paddle, walls, bricks).bursts.len() == bonus_destroyed(
            bricks,
            spec_ball_pass(ball, paddle, walls, bricks).bricks,
            bricks.len(),
        ),
{
    let off_paddle = match paddle {
        Some(p) => spec_bounce(ball, p.position, p.size),
        None => ball,
    };
    let off_walls = spec_bounce_walls(off_paddle, walls, walls.len());
    lemma_strike_bricks_bursts(off_walls, bricks, bricks.len());
}

/// The collision phase causes one burst for each bonus brick that it
/// destroys.
pub proof fn lemma_collide_bursts(
    balls: Seq<Option<Ball>>,
    paddle: Option<Paddle>,
    walls: Seq<Wall>,
    bricks: Seq<Option<Brick>>,
    n: nat,
)
    requires
        n <= balls.len(),
    ensures
        spec_collide(balls, paddle, walls, bricks, n).bursts.len() == bonus_destroyed(
            bricks,
            spec_collide(balls, paddle, walls, bricks, n).bricks,
            bricks.len(),
        ),
    decreases n,
{
    if n == 0 {
        lemma_bonus_destroyed_none(bricks, bricks, 0, bricks.len());
    } else {
        let before = spec_collide(balls, paddle, walls, bricks, (n - 1) as nat);
        lemma_collide_bursts(balls, paddle, walls, bricks, (n - 1) as nat);
        lemma_collide(balls, paddle, walls, bricks, (n - 1) as nat);
        match before.balls[n - 1] {
            None => {},
            Some(ball) => {
                lemma_ball_pass(ball, paddle, walls, before.bricks);
                lemma_ball_pass_bursts(ball, paddle, walls, before.bricks);
                let one = spec_ball_pass(ball, paddle, walls, before.bricks);
                assert forall|j: int| 0 <= j < bricks.len() implies slot_only_damaged(
                    bricks[j],
                    before.bricks[j],
                ) && slot_only_damaged(before.bricks[j], one.bricks[j]) by {
                    assert(slot_only_damaged(bricks[j], before.bricks[j]));
                    assert(slot_only_damaged(before.bricks[j], one.bricks[j]));
                }
                lemma_bonus_destroyed_adds(bricks, before.bricks, one.bricks, bricks.len());
            },
        }
    }
}

/// A box that a ball can run into.
pub struct Obstacle {
    pub position: Vec2,
    pub size: Vec2,
}

/// The paddle as an obstacle, if there is a paddle.
pub open spec fn paddle_obstacle(paddle: Option<Paddle>) -> Option<Obstacle> {
    match paddle {
        Some(p) => Some(Obstacle { position: p.position, size: p.size }),
        None => None,
    }
}

/// The brick of a slot as an obstacle, if there is a brick. A brick marked
/// for removal is an obstacle until it is removed.
pub open spec fn brick_obstacle(slot: Option<Brick>) -> Option<Obstacle> {
    match slot {
        Some(b) => Some(Obstacle { position: b.position, size: b.size }),
        None => None,
    }
}

/// The walls as obstacles.
pub open spec fn wall_obstacles(walls: Seq<Wall>) -> Seq<Option<Obstacle>> {
    Seq::new(
        walls.len(),
        |j: int| Some(Obstacle { position: walls[j].position, size: walls[j].size }),
    )
}

/// The bricks as obstacles, slot by slot.
pub open spec fn brick_obstacles(bricks: Seq<Option<Brick>>) -> Seq<Option<Obstacle>> {
    Seq::new(bricks.len(), |j: int| brick_obstacle(bricks[j]))
}

/// Everything a ball can run into, in the order in which it meets them:
/// the paddle, the walls, the bricks.
pub open spec fn obstacles(paddle: Option<Paddle>, walls: Seq<Wall>, bricks: Seq<Option<Brick>>) -> Seq<
    Option<Obstacle>,
> {
    seq![paddle_obstacle(paddle)] + wall_obstacles(walls) + brick_obstacles(bricks)
}

/// Whether a box at `position` with extent `size` overlaps the obstacle.
pub open spec fn touches(position: Vec2, size: Vec2, obstacle: Option<Obstacle>) -> bool {
    match obstacle {
        Some(o) => spec_overlap(position, size, o.position, o.size) is Some,
        None => false,
    }
}

/// The velocity of a box at `position` with extent `size` after it has met
/// the first `n` of the obstacles, one after another: it is reflected at
/// each obstacle that the box overlaps.
pub open spec fn spec_deflect(
    velocity: Vec2,
    position: Vec2,
    size: Vec2,
    obstacles: Seq<Option<Obstacle>>,
    n: nat,
) -> Vec2
    decreases n,
{
    if n == 0 {
        velocity
    } else {
        let v = spec_deflect(velocity, position, size, obstacles, (n - 1) as nat);
        match obstacles[n - 1] {
            Some(o) => match spec_overlap(position, size, o.position, o.size) {
                Some(edge) => spec_reflect(v, edge),
                None => v,
            },
            None => v,
        }
    }
}

/// The ball after the collision phase, as far as it alone is concerned: its
/// velocity reflected at each obstacle that it overlaps, in their order.
pub open spec fn spec_deflected(ball: Ball, obstacles: Seq<Option<Obstacle>>) -> Ball {
    Ball {
        velocity: spec_deflect(ball.velocity, ball.position, ball.size, obstacles, obstacles.len()),
        ..ball
    }
}

proof fn lemma_deflect_prefix(
    velocity: Vec2,
    position: Vec2,
    size: Vec2,
    a: Seq<Option<Obstacle>>,
    b: Seq<Option<Obstacle>>,
    n: nat,
)
    requires
        n <= a.len(),
    ensures
        spec_deflect(velocity, position, size, a + b, n) == spec_deflect(
            velocity,
            position,
            size,
            a,
            n,
        ),
    decreases n,
{
    if n > 0 {
        lemma_deflect_prefix(velocity, position, size, a, b, (n - 1) as nat);
        assert((a + b)[n - 1] == a[n - 1]);
    }
}

proof fn lemma_deflect_concat(
    velocity: Vec2,
    position: Vec2,
    size: Vec2,
    a: Seq<Option<Obstacle>>,
    b: Seq<Option<Obstacle>>,
    m: nat,
)
    requires
        m <= b.len(),
    ensures
        spec_deflect(velocity, position, size, a + b, a.len() + m) == spec_deflect(
            spec_deflect(velocity, position, size, a, a.len()),
            position,
            size,
            b,
            m,
        ),
    decreases m,
{
    if m == 0 {
        lemma_deflect_prefix(velocity, position, size, a, b, a.len());
    } else {
        lemma_deflect_concat(velocity, position, size, a, b, (m - 1) as nat);
        assert((a + b)[a.len() + m - 1] == b[m - 1]);
    }
}

proof fn lemma_bounce_walls_deflects(ball: Ball, walls: Seq<Wall>, n: nat)
    requires
        n <= walls.len(),
    ensures
        spec_bounce_walls(ball, walls, n) == (Ball {
            velocity: spec_deflect(
                ball.velocity,
                ball.position,
                ball.size,
                wall_obstacles(walls),
                n,
            ),
            ..ball
        }),
    decreases n,
{
    if n > 0 {
        lemma_bounce_walls_deflects(ball, walls, (n - 1) as nat);
    }
}

proof fn lemma_strike_bricks_deflects(ball: Ball, bricks: Seq<Option<Brick>>, n: nat)
    requires
        n <= bricks.len(),
    ensures
        spec_strike_bricks(ball, bricks, n).ball == (Ball {
            velocity: spec_deflect(
                ball.velocity,
                ball.position,
                ball.size,
                brick_obstacles(bricks),
                n,
            ),
            ..ball
        }),
    decreases n,
{
    if n > 0 {
        lemma_strike_bricks_deflects(ball, bricks, (n - 1) as nat);
        lemma_strike_bricks(ball, bricks, (n - 1) as nat);
        let before = spec_strike_bricks(ball, bricks, (n - 1) as nat);
        assert(before.bricks[n - 1] == bricks[n - 1]);
    }
}

/// One ball's passage over everything leaves it with its velocity reflected
/// at each obstacle that it overlaps, in their order. What the bricks' health
/// is, and whether they are marked, makes no difference to the ball.
pub proof fn lemma_ball_pass_deflects(
    ball: Ball,
    paddle: Option<Paddle>,
    walls: Seq<Wall>,
    bricks: Seq<Option<Brick>>,
)
    ensures
        spec_ball_pass(ball, paddle, walls, bricks).ball == spec_deflected(
            ball,
            obstacles(paddle, walls, bricks),
        ),
{
    let v = ball.velocity;
    let p = ball.position;
    let s = ball.size;
    let first = seq![paddle_obstacle(paddle)];
    let wo = wall_obstacles(walls);
    let bo = brick_obstacles(bricks);
    let off_paddle = match paddle {
        Some(pd) => spec_bounce(ball, pd.position, pd.size),
        None => ball,
    };
    reveal_with_fuel(spec_deflect, 2);
    assert(off_paddle == Ball { velocity: spec_deflect(v, p, s, first, 1), ..ball });
    lemma_bounce_walls_deflects(off_paddle, walls, walls.len());
    let off_walls = spec_bounce_walls(off_paddle, walls, walls.len());
    lemma_strike_bricks_deflects(off_walls, bricks, bricks.len());
    lemma_deflect_concat(v, p, s, first, wo, wo.len());
    lemma_deflect_concat(v, p, s, first + wo, bo, bo.len());
}

/// Collisions leave the obstacles where they are.
pub proof fn lemma_obstacles_stay(
    paddle: Option<Paddle>,
    walls: Seq<Wall>,
    bricks: Seq<Option<Brick>>,
    after: Seq<Option<Brick>>,
)
    requires
        after.len() == bricks.len(),
        forall|j: int| 0 <= j < bricks.len() ==> slot_only_damaged(bricks[j], #[trigger] after[j]),
    ensures
        brick_obstacles(after) == brick_obstacles(bricks),
        obstacles(paddle, walls, after) == obstacles(paddle, walls, bricks),
{
    assert forall|j: int| 0 <= j < bricks.len() implies brick_obstacles(after)[j]
        == brick_obstacles(bricks)[j] by {
        assert(slot_only_damaged(bricks[j], after[j]));
    }
    assert(brick_obstacles(after) =~= brick_obstacles(bricks));
}

/// The collision phase leaves each ball with its velocity reflected at each
/// obstacle that it overlaps, in their order, whatever the other balls do.
pub proof fn lemma_collide_deflects(
    balls: Seq<Option<Ball>>,
    paddle: Option<Paddle>,
    walls: Seq<Wall>,
    bricks: Seq<Option<Brick>>,
    n: nat,
    i: int,
)
    requires
        0 <= i < n <= balls.len(),
    ensures
        spec_collide(balls, paddle, walls, bricks, n).balls[i] == match balls[i] {
            Some(ball) => Some(spec_deflected(ball, obstacles(paddle, walls, bricks))),
            None => None,
        },
    decreases n,
{
    lemma_collide(balls, paddle, walls, bricks, (n - 1) as nat);
    let before = spec_collide(balls, paddle, walls, bricks, (n - 1) as nat);
    if i < n - 1 {
        lemma_collide_deflects(balls, paddle, walls, bricks, (n - 1) as nat, i);
    } else {
        assert(before.balls[n - 1] == balls[n - 1]);
        match balls[i] {
            Some(ball) => {
                lemma_ball_pass_deflects(ball, paddle, walls, before.bricks);
                lemma_obstacles_stay(paddle, walls, bricks, before.bricks);
            },
            None => {},
        }
    }
}

/// A box that overlaps one obstacle only is reflected at that obstacle and
/// at nothing else.
pub proof fn lemma_deflect_single(
    velocity: Vec2,
    position: Vec2,
    size: Vec2,
    obstacles: Seq<Option<Obstacle>>,
    k: int,
    n: nat,
)
    requires
        0 <= k < obstacles.len(),
        n <= obstacles.len(),
        touches(position, size, obstacles[k]),
        forall|j: int|
            0 <= j < obstacles.len() && j != k ==> !touches(position, size, #[trigger] obstacles[j]),
    ensures
        spec_deflect(velocity, position, size, obstacles, n) == if n <= k {
            velocity
        } else {
            spec_reflect(
                velocity,
                spec_overlap(
                    position,
                    size,
                    obstacles[k].unwrap().position,
                    obstacles[k].unwrap().size,
                ).unwrap(),
            )
        },
    decreases n,
{
    if n > 0 {
        lemma_deflect_single(velocity, position, size, obstacles, k, (n - 1) as nat);
        if n - 1 != k {
            assert(!touches(position, size, obstacles[n - 1]));
        }
    }
}

/// Whether the slot holds a ball that overlaps the brick in the other slot.
pub open spec fn meets(ball: Option<Ball>, brick: Option<Brick>) -> bool {
    match (ball, brick) {
        (Some(b), Some(k)) => spec_overlap(b.position, b.size, k.position, k.size) is Some,
        _ => false,
    }
}

/// The number of bricks among the first `n` that the ball overlaps.
pub open spec fn met_bricks(ball: Option<Ball>, bricks: Seq<Option<Brick>>, n: nat) -> nat
    decreases n,
{
    if n == 0 {
        0
    } else {
        met_bricks(ball, bricks, (n - 1) as nat) + if meets(ball, bricks[n - 1]) {
            1nat
        } else {
            0nat
        }
    }
}

/// The number of pairs of a ball among the first `n` and a brick that
/// overlap.
pub open spec fn meetings(balls: Seq<Option<Ball>>, bricks: Seq<Option<Brick>>, n: nat) -> nat
    decreases n,
{
    if n == 0 {
        0
    } else {
        meetings(balls, bricks, (n - 1) as nat) + met_bricks(balls[n - 1], bricks, bricks.len())
    }
}

/// Whether no brick is marked for removal.
pub open spec fn none_marked(bricks: Seq<Option<Brick>>) -> bool {
    forall|j: int|
        0 <= j < bricks.len() && (#[trigger] bricks[j]) is Some ==> !bricks[j].unwrap().despawn
}

/// Whether no brick is overlapped by more than one ball.
pub open spec fn one_ball_per_brick(balls: Seq<Option<Ball>>, bricks: Seq<Option<Brick>>) -> bool {
    forall|i: int, h: int, j: int|
        0 <= i < balls.len() && 0 <= h < balls.len() && i != h && 0 <= j < bricks.len()
            && #[trigger] meets(balls[i], bricks[j]) ==> !#[trigger] meets(balls[h], bricks[j])
}

proof fn lemma_met_bricks_stay(
    ball: Option<Ball>,
    bricks: Seq<Option<Brick>>,
    after: Seq<Option<Brick>>,
    n: nat,
)
    requires
        n <= bricks.len() == after.len(),
        forall|j: int| 0 <= j < bricks.len() ==> slot_only_damaged(bricks[j], #[trigger] after[j]),
    ensures
        met_bricks(ball, after, n) == met_bricks(ball, bricks, n),
        forall|j: int| 0 <= j < bricks.len() ==> meets(ball, after[j]) == meets(ball, bricks[j]),
    decreases n,
{
    assert forall|j: int| 0 <= j < bricks.len() implies meets(ball, after[j]) == meets(
        ball,
        bricks[j],
    ) by {
        assert(slot_only_damaged(bricks[j], after[j]));
    }
    if n > 0 {
        lemma_met_bricks_stay(ball, bricks, after, (n - 1) as nat);
    }
}

proof fn lemma_strike_bricks_hits(ball: Ball, bricks: Seq<Option<Brick>>, n: nat)
    requires
        n <= bricks.len(),
    ensures
        forall|j: int|
            0 <= j < bricks.len() && !meets(Some(ball), bricks[j]) ==> (#[trigger] spec_strike_bricks(
                ball,
                bricks,
                n,
            ).bricks[j]) == bricks[j],
        (forall|j: int|
            0 <= j < n && meets(Some(ball), #[trigger] bricks[j]) ==> !bricks[j].unwrap().despawn)
            ==> spec_strike_bricks(ball, bricks, n).hits == met_bricks(Some(ball), bricks, n),
    decreases n,
{
    if n > 0 {
        lemma_strike_bricks_hits(ball, bricks, (n - 1) as nat);
        lemma_strike_bricks(ball, bricks, (n - 1) as nat);
        let before = spec_strike_bricks(ball, bricks, (n - 1) as nat);
        assert(before.bricks[n - 1] == bricks[n - 1]);
        assert(only_deflected(ball, before.ball));
        if forall|j: int|
            0 <= j < n && meets(Some(ball), #[trigger] bricks[j]) ==> !bricks[j].unwrap().despawn {
            assert(meets(Some(ball), bricks[n - 1]) ==> !bricks[n - 1].unwrap().despawn);
        }
    }
}

/// One ball's passage over everything changes only bricks that it overlaps.
/// If none of these is marked, each of them is hit: the number of hits is
/// the number of bricks that the ball overlaps. The paddle and the walls add
/// nothing.
pub proof fn lemma_ball_pass_hits(
    ball: Ball,
    paddle: Option<Paddle>,
    walls: Seq<Wall>,
    bricks: Seq<Option<Brick>>,
)
    ensures
        forall|j: int|
            0 <= j < bricks.len() && !meets(Some(ball), bricks[j]) ==> (#[trigger] spec_ball_pass(
                ball,
                paddle,
                walls,
                bricks,
            ).bricks[j]) == bricks[j],
        (forall|j: int|
            0 <= j < bricks.len() && meets(Some(ball), #[trigger] bricks[j])
                ==> !bricks[j].unwrap().despawn) ==> spec_ball_pass(
            ball,
            paddle,
            walls,
            bricks,
        ).hits == met_bricks(Some(ball), bricks, bricks.len()),
{
    let off_paddle = match paddle {
        Some(p) => spec_bounce(ball, p.position, p.size),
        None => ball,
    };
    lemma_bounce_walls(off_paddle, walls, walls.len());
    let off_walls = spec_bounce_walls(off_paddle, walls, walls.len());
    assert(only_deflected(ball, off_walls));
    lemma_strike_bricks_hits(off_walls, bricks, bricks.len());
    lemma_met_bricks_same_box(ball, off_walls, bricks, bricks.len());
}

proof fn lemma_met_bricks_same_box(ball: Ball, other: Ball, bricks: Seq<Option<Brick>>, n: nat)
    requires
        only_deflected(ball, other),
        n <= bricks.len(),
    ensures
        met_bricks(Some(other), bricks, n) == met_bricks(Some(ball), bricks, n),
        forall|j: int|
            0 <= j < bricks.len() ==> meets(Some(other), bricks[j]) == meets(
                Some(ball),
                bricks[j],
            ),
    decreases n,
{
    if n > 0 {
        lemma_met_bricks_same_box(ball, other, bricks, (n - 1) as nat);
    }
}

/// Whether none of the first `n` balls overlaps the brick in slot `j`.
pub open spec fn unmet_so_far(
    balls: Seq<Option<Ball>>,
    bricks: Seq<Option<Brick>>,
    n: nat,
    j: int,
) -> bool {
    forall|i: int| 0 <= i < n ==> !#[trigger] meets(balls[i], bricks[j])
}

/// The hits of the collision phase, where no brick is marked at its start
/// and no brick is overlapped by more than one ball: every pair of a ball
/// and a brick that overlap is one hit, whatever the edge, the kind of the
/// brick and its health, and nothing else is a hit. A brick that none of the
/// balls so far overlaps is as it was.
pub proof fn lemma_collide_hits(
    balls: Seq<Option<Ball>>,
    paddle: Option<Paddle>,
    walls: Seq<Wall>,
    bricks: Seq<Option<Brick>>,
    n: nat,
)
    requires
        n <= balls.len(),
        none_marked(bricks),
        one_ball_per_brick(balls, bricks),
    ensures
        spec_collide(balls, paddle, walls, bricks, n).hits == meetings(balls, bricks, n),
        forall|j: int|
            0 <= j < bricks.len() && unmet_so_far(balls, bricks, n, j) ==> (#[trigger] spec_collide(
                balls,
                paddle,
                walls,
                bricks,
                n,
            ).bricks[j]) == bricks[j],
    decreases n,
{
    if n > 0 {
        lemma_collide_hits(balls, paddle, walls, bricks, (n - 1) as nat);
        lemma_collide(balls, paddle, walls, bricks, (n - 1) as nat);
        let before = spec_collide(balls, paddle, walls, bricks, (n - 1) as nat);
        let pass = spec_collide(balls, paddle, walls, bricks, n);
        assert(before.balls[n - 1] == balls[n - 1]);
        lemma_met_bricks_stay(balls[n - 1], bricks, before.bricks, bricks.len());
        match balls[n - 1] {
            None => {
                assert(met_bricks(None, bricks, bricks.len()) == 0) by {
                    lemma_met_bricks_none(bricks, bricks.len());
                }
                assert forall|j: int|
                    0 <= j < bricks.len() && unmet_so_far(balls, bricks, n, j) implies (
                #[trigger] pass.bricks[j]) == bricks[j] by {
                    assert(unmet_so_far(balls, bricks, (n - 1) as nat, j));
                    assert(before.bricks[j] == bricks[j]);
                }
            },
            Some(ball) => {
                lemma_ball_pass_hits(ball, paddle, walls, before.bricks);
                let one = spec_ball_pass(ball, paddle, walls, before.bricks);
                assert forall|j: int|
                    0 <= j < bricks.len() && meets(
                        Some(ball),
                        #[trigger] before.bricks[j],
                    ) implies !before.bricks[j].unwrap().despawn by {
                    assert(meets(balls[n - 1], bricks[j]));
                    assert forall|i: int| 0 <= i < n - 1 implies !#[trigger] meets(
                        balls[i],
                        bricks[j],
                    ) by {
                        assert(meets(balls[n - 1], bricks[j]));
                    }
                    assert(unmet_so_far(balls, bricks, (n - 1) as nat, j));
                    assert(before.bricks[j] == bricks[j]);
                    assert(bricks[j] is Some);
                }
                assert forall|j: int|
                    0 <= j < bricks.len() && unmet_so_far(balls, bricks, n, j) implies (
                #[trigger] pass.bricks[j]) == bricks[j] by {
                    assert(unmet_so_far(balls, bricks, (n - 1) as nat, j));
                    assert(before.bricks[j] == bricks[j]);
                    assert(!meets(balls[n - 1], bricks[j]));
                    assert(!meets(Some(ball), before.bricks[j]));
                    assert(one.bricks[j] == before.bricks[j]);
                }
            },
        }
    }
}

proof fn lemma_met_bricks_none(bricks: Seq<Option<Brick>>, n: nat)
    ensures
        met_bricks(None, bricks, n) == 0,
    decreases n,
{
    if n > 0 {
        lemma_met_bricks_none(bricks, (n - 1) as nat);
    }
}

} // verus!
