//! The world of a play session and the phases of one simulation tick.

use vstd::prelude::*;
use rand::rngs::StdRng;
use crate::config::{
    BALL_INIT_DIRECTION_X, BALL_INIT_DIRECTION_Y, BALL_START_X, BALL_START_Y, BONUS_BALLS,
    DEFAULT_BRICK_ROWS, HIGHER_BOUND_X, HIGHER_BOUND_Y, LOWER_BOUND_X, LOWER_BOUND_Y,
    PADDLE_HEIGHT, PADDLE_START_Y, PADDLE_WIDTH, WALL_THICKNESS,
};
use crate::geometry::Vec2;
use crate::entity::{Ball, Brick, Paddle, Scoreboard, Wall, spec_launch};
use crate::collision::{
    CollisionPass, bounce, bounce_walls, lemma_collide_deflects, lemma_collide_hits, meetings,
    none_marked, obstacles, one_ball_per_brick, spec_add_score, spec_collide, spec_deflected,
    strike_bricks,
};
use crate::direction::{is_drawn_direction, random_direction};
use crate::field::{is_field_added, is_field_drawn, setup_bricks};
use crate::motion::{
    PaddleInput, advance, check_despawn, spec_advance, spec_check_despawn, spec_steer_paddle,
    steer_paddle,
};

verus! {

/// Every object of a play session.
///
/// Balls and bricks live in tables. An object is known by its handle, the
/// number of its slot in its table. A slot is filled when the object is
/// created and emptied when the object is removed. It is never filled again,
/// so a handle never comes to stand for another object.
#[derive(Debug)]
pub struct World {
    pub paddle: Option<Paddle>,
    pub balls: Vec<Option<Ball>>,
    pub bricks: Vec<Option<Brick>>,
    pub walls: Vec<Wall>,
}

/// The mathematical content of a `World`.
pub struct WorldView {
    pub paddle: Option<Paddle>,
    pub balls: Seq<Option<Ball>>,
    pub bricks: Seq<Option<Brick>>,
    pub walls: Seq<Wall>,
}

impl View for World {
    type V = WorldView;

    open spec fn view(&self) -> WorldView {
        WorldView {
            paddle: self.paddle,
            balls: self.balls@,
            bricks: self.bricks@,
            walls: self.walls@,
        }
    }
}

/// The number of filled slots among the first `n` of a table.
pub open spec fn occupied<T>(slots: Seq<Option<T>>, n: nat) -> nat
    decreases n,
{
    if n == 0 {
        0
    } else {
        occupied(slots, (n - 1) as nat) + if slots[n - 1] is Some {
            1nat
        } else {
            0nat
        }
    }
}

/// The number of objects in a table.
pub open spec fn population<T>(slots: Seq<Option<T>>) -> nat {
    occupied(slots, slots.len())
}

/// The paddle, if there is one, after one tick under `input`.
pub open spec fn steered(paddle: Option<Paddle>, input: PaddleInput, dt: u32) -> Option<Paddle> {
    match paddle {
        Some(p) => Some(spec_steer_paddle(p, input, dt)),
        None => None,
    }
}

/// A slot of the ball table after `dt` milliseconds of free flight.
pub open spec fn advanced_slot(slot: Option<Ball>, dt: u32) -> Option<Ball> {
    match slot {
        Some(ball) => Some(spec_advance(ball, dt)),
        None => None,
    }
}

/// The ball table after `dt` milliseconds of free flight.
pub open spec fn advanced(balls: Seq<Option<Ball>>, dt: u32) -> Seq<Option<Ball>> {
    Seq::new(balls.len(), |i: int| advanced_slot(balls[i], dt))
}

/// A slot of the ball table, its ball marked for removal if it has dropped
/// out of the field.
pub open spec fn checked_slot(slot: Option<Ball>) -> Option<Ball> {
    match slot {
        Some(ball) => Some(spec_check_despawn(ball)),
        None => None,
    }
}

/// The ball table, those balls marked that have dropped out of the field.
pub open spec fn checked(balls: Seq<Option<Ball>>) -> Seq<Option<Ball>> {
    Seq::new(balls.len(), |i: int| checked_slot(balls[i]))
}

/// A slot of the ball table after the sweep: emptied if its ball was marked.
pub open spec fn swept_ball(slot: Option<Ball>) -> Option<Ball> {
    match slot {
        Some(ball) => if ball.despawn {
            None
        } else {
            Some(ball)
        },
        None => None,
    }
}

/// A slot of the brick table after the sweep: emptied if its brick was
/// marked.
pub open spec fn swept_brick(slot: Option<Brick>) -> Option<Brick> {
    match slot {
        Some(brick) => if brick.despawn {
            None
        } else {
            Some(brick)
        },
        None => None,
    }
}

/// The ball table after the sweep.
pub open spec fn swept_balls(balls: Seq<Option<Ball>>) -> Seq<Option<Ball>> {
    Seq::new(balls.len(), |i: int| swept_ball(balls[i]))
}

/// The brick table after the sweep.
pub open spec fn swept_bricks(bricks: Seq<Option<Brick>>) -> Seq<Option<Brick>> {
    Seq::new(bricks.len(), |i: int| swept_brick(bricks[i]))
}

/// The collision phase on the first `n` slots of the ball table of a world.
pub open spec fn collided(w: WorldView, n: nat) -> CollisionPass {
    spec_collide(w.balls, w.paddle, w.walls, w.bricks, n)
}

/// The collision phase on a world.
pub open spec fn spec_collide_world(w: WorldView) -> CollisionPass {
    collided(w, w.balls.len())
}

/// What the five phases of a tick lead to, before new balls are released.
pub struct StepView {
    /// The world after the sweep.
    pub world: WorldView,
    /// The number of hits, each worth a point.
    pub hits: nat,
    /// Where bonus bricks were destroyed, in the order of the hits.
    pub bursts: Seq<Vec2>,
}

/// The world once the paddle and the balls have moved.
pub open spec fn spec_moved(w: WorldView, input: PaddleInput, dt: u32) -> WorldView {
    WorldView { paddle: steered(w.paddle, input, dt), balls: advanced(w.balls, dt), ..w }
}

/// The five phases of a tick, in their order: the paddle moves, the balls
/// move, collisions are resolved, balls out of the field are marked, and
/// everything marked is removed.
pub open spec fn spec_step(w: WorldView, input: PaddleInput, dt: u32) -> StepView {
    let moved = spec_moved(w, input, dt);
    let pass = spec_collide_world(moved);
    StepView {
        world: WorldView {
            paddle: moved.paddle,
            balls: swept_balls(checked(pass.balls)),
            bricks: swept_bricks(pass.bricks),
            walls: w.walls,
        },
        hits: pass.hits,
        bursts: pass.bursts,
    }
}

/// Whether `ball` is a ball released at `position`: a new ball that flies
/// in a direction that can be drawn.
pub open spec fn is_released_ball(ball: Ball, position: Vec2) -> bool {
    exists|direction: Vec2|
        is_drawn_direction(direction) && ball == #[trigger] spec_launch(position, direction)
}

/// Whether a slot holds a ball released at `position`.
pub open spec fn is_released_slot(slot: Option<Ball>, position: Vec2) -> bool {
    match slot {
        Some(ball) => is_released_ball(ball, position),
        None => false,
    }
}

/// Whether the table `balls` is the table `before` followed by the balls
/// released by `bursts`: `BONUS_BALLS` balls for each burst, at the place of
/// the burst.
pub open spec fn is_released(
    before: Seq<Option<Ball>>,
    balls: Seq<Option<Ball>>,
    bursts: Seq<Vec2>,
) -> bool {
    &&& balls.len() == before.len() + BONUS_BALLS * bursts.len()
    &&& balls.subrange(0, before.len() as int) == before
    &&& forall|i: int|
        before.len() <= i < balls.len() ==> is_released_slot(
            #[trigger] balls[i],
            bursts[(i - before.len()) / (BONUS_BALLS as int)],
        )
}

/// The paddle of a new session.
pub open spec fn start_paddle() -> Paddle {
    Paddle {
        position: Vec2 { x: 0, y: PADDLE_START_Y },
        size: Vec2 { x: PADDLE_WIDTH, y: PADDLE_HEIGHT },
    }
}

/// The ball of a new session.
pub open spec fn start_ball() -> Ball {
    spec_launch(
        Vec2 { x: BALL_START_X, y: BALL_START_Y },
        Vec2 { x: BALL_INIT_DIRECTION_X, y: BALL_INIT_DIRECTION_Y },
    )
}

/// The walls of a new session: the left side, the right side and the
/// ceiling. The field has no floor.
pub open spec fn start_walls() -> Seq<Wall> {
    let side = Vec2 {
        x: WALL_THICKNESS,
        y: (HIGHER_BOUND_Y - LOWER_BOUND_Y + WALL_THICKNESS) as i64,
    };
    let ceiling = Vec2 {
        x: (HIGHER_BOUND_X - LOWER_BOUND_X + WALL_THICKNESS) as i64,
        y: WALL_THICKNESS,
    };
    seq![
        Wall { position: Vec2 { x: LOWER_BOUND_X, y: 0 }, size: side },
        Wall { position: Vec2 { x: HIGHER_BOUND_X, y: 0 }, size: side },
        Wall { position: Vec2 { x: 0, y: HIGHER_BOUND_Y }, size: ceiling },
    ]
}

fn count_occupied<T>(slots: &Vec<Option<T>>) -> (n: usize)
    ensures
        n == population(slots@),
{
    let mut n: usize = 0;
    let mut i: usize = 0;
    while i < slots.len()
        invariant
            i <= slots.len(),
            n <= i,
            n == occupied(slots@, i as nat),
        decreases slots.len() - i,
    {
        if slots[i].is_some() {
            n += 1;
        }
        i += 1;
    }
    n
}

impl World {
    /// A world without any object.
    pub fn new() -> (world: World)
        ensures
            world@.paddle is None,
            world@.balls.len() == 0,
            world@.bricks.len() == 0,
            world@.walls.len() == 0,
    {
        World { paddle: None, balls: Vec::new(), bricks: Vec::new(), walls: Vec::new() }
    }

    /// The ball with the given handle, if it is still there.
    pub fn ball(&self, handle: usize) -> (ball: Option<Ball>)
        ensures
            ball == if handle < self@.balls.len() {
                self@.balls[handle as int]
            } else {
                None
            },
    {
        if handle < self.balls.len() {
            self.balls[handle]
        } else {
            None
        }
    }

    /// The brick with the given handle, if it is still there.
    pub fn brick(&self, handle: usize) -> (brick: Option<Brick>)
        ensures
            brick == if handle < self@.bricks.len() {
                self@.bricks[handle as int]
            } else {
                None
            },
    {
        if handle < self.bricks.len() {
            self.bricks[handle]
        } else {
            None
        }
    }

    /// The number of balls.
    pub fn ball_count(&self) -> (n: usize)
        ensures
            n == population(self@.balls),
    {
        count_occupied(&self.balls)
    }

    /// The number of bricks.
    pub fn brick_count(&self) -> (n: usize)
        ensures
            n == population(self@.bricks),
    {
        count_occupied(&self.bricks)
    }

    /// The first phase of a tick: moves the paddle as the player asks and
    /// keeps it in the field.
    pub fn move_paddle(&mut self, input: PaddleInput, dt: u32)
        ensures
            final(self)@ == (WorldView { paddle: steered(old(self)@.paddle, input, dt), ..old(self)@ }),
    {
        match self.paddle {
            Some(paddle) => {
                self.paddle = Some(steer_paddle(paddle, input, dt));
            },
            None => {},
        }
    }

    /// The second phase of a tick: moves every ball along its velocity.
    pub fn move_ball(&mut self, dt: u32)
        ensures
            final(self)@ == (WorldView { balls: advanced(old(self)@.balls, dt), ..old(self)@ }),
    {
        let mut i: usize = 0;
        while i < self.balls.len()
            invariant
                i <= self.balls.len(),
                self.balls.len() == old(self).balls.len(),
                self.paddle == old(self).paddle,
                self.bricks == old(self).bricks,
                self.walls == old(self).walls,
                forall|j: int| 0 <= j < i ==> self.balls[j] == advanced_slot(old(self).balls[j], dt),
                forall|j: int| i <= j < self.balls.len() ==> self.balls[j] == old(self).balls[j],
            decreases self.balls.len() - i,
        {
            let slot = self.balls[i];
            match slot {
                Some(ball) => {
                    self.balls.set(i, Some(advance(ball, dt)));
                },
                None => {},
            }
            i += 1;
        }
        assert(self.balls@ =~= advanced(old(self)@.balls, dt));
    }

    /// The third phase of a tick: resolves every ball against the paddle, the
    /// walls and the bricks, ball after ball. A ball is reflected at each
    /// obstacle that it overlaps, whatever the other balls do. Each hit on a
    /// brick earns a point and costs the brick a point of health, and a brick
    /// without health is marked for removal. Where no brick is marked at the
    /// start and no brick is overlapped by more than one ball, every pair of
    /// a ball and a brick that overlap is one hit. Returns where bonus bricks
    /// were destroyed.
    pub fn check_ball_collision(&mut self, scoreboard: &mut Scoreboard) -> (bursts: Vec<Vec2>)
        ensures
            final(self)@.paddle == old(self)@.paddle,
            final(self)@.walls == old(self)@.walls,
            final(self)@.balls == spec_collide_world(old(self)@).balls,
            final(self)@.bricks == spec_collide_world(old(self)@).bricks,
            final(self)@.balls.len() == old(self)@.balls.len(),
            final(self)@.bricks.len() == old(self)@.bricks.len(),
            final(scoreboard).score == spec_add_score(
                old(scoreboard).score,
                spec_collide_world(old(self)@).hits,
            ),
            bursts@ == spec_collide_world(old(self)@).bursts,
            forall|handle: int|
                0 <= handle < old(self)@.balls.len() ==> #[trigger] final(self)@.balls[handle]
                    == match old(self)@.balls[handle] {
                    Some(ball) => Some(
                        spec_deflected(
                            ball,
                            obstacles(old(self)@.paddle, old(self)@.walls, old(self)@.bricks),
                        ),
                    ),
                    None => None,
                },
            none_marked(old(self)@.bricks) && one_ball_per_brick(
                old(self)@.balls,
                old(self)@.bricks,
            ) ==> final(scoreboard).score == spec_add_score(
                old(scoreboard).score,
                meetings(old(self)@.balls, old(self)@.bricks, old(self)@.balls.len()),
            ),
    {
        let mut bursts: Vec<Vec2> = Vec::new();
        let mut i: usize = 0;
        while i < self.balls.len()
            invariant
                i <= self.balls.len(),
                self.balls.len() == old(self).balls.len(),
                self.bricks.len() == old(self).bricks.len(),
                self.paddle == old(self).paddle,
                self.walls == old(self).walls,
                self.balls@ == collided(old(self)@, i as nat).balls,
                self.bricks@ == collided(old(self)@, i as nat).bricks,
                scoreboard.score == spec_add_score(
                    old(scoreboard).score,
                    collided(old(self)@, i as nat).hits,
                ),
                bursts@ == collided(old(self)@, i as nat).bursts,
            decreases self.balls.len() - i,
        {
            let slot = self.balls[i];
            match slot {
                None => {},
                Some(ball) => {
                    let off_paddle = match self.paddle {
                        Some(paddle) => bounce(ball, &paddle),
                        None => ball,
                    };
                    let off_walls = bounce_walls(off_paddle, &self.walls);
                    let struck = strike_bricks(off_walls, &mut self.bricks, scoreboard, &mut bursts);
                    self.balls.set(i, Some(struck));
                },
            }
            i += 1;
        }
        proof {
            let w = old(self)@;
            assert forall|handle: int| 0 <= handle < w.balls.len() implies #[trigger] self@.balls[handle]
                == match w.balls[handle] {
                Some(ball) => Some(spec_deflected(ball, obstacles(w.paddle, w.walls, w.bricks))),
                None => None,
            } by {
                lemma_collide_deflects(w.balls, w.paddle, w.walls, w.bricks, w.balls.len(), handle);
            }
            if none_marked(w.bricks) && one_ball_per_brick(w.balls, w.bricks) {
                lemma_collide_hits(w.balls, w.paddle, w.walls, w.bricks, w.balls.len());
            }
        }
        bursts
    }

    /// The fourth phase of a tick: marks every ball that has dropped out of
    /// the field.
    pub fn check_despawn_ball(&mut self)
        ensures
            final(self)@ == (WorldView { balls: checked(old(self)@.balls), ..old(self)@ }),
    {
        let mut i: usize = 0;
        while i < self.balls.len()
            invariant
                i <= self.balls.len(),
                self.balls.len() == old(self).balls.len(),
                self.paddle == old(self).paddle,
                self.bricks == old(self).bricks,
                self.walls == old(self).walls,
                forall|j: int| 0 <= j < i ==> self.balls[j] == checked_slot(old(self).balls[j]),
                forall|j: int| i <= j < self.balls.len() ==> self.balls[j] == old(self).balls[j],
            decreases self.balls.len() - i,
        {
            let slot = self.balls[i];
            match slot {
                Some(ball) => {
                    self.balls.set(i, Some(check_despawn(ball)));
                },
                None => {},
            }
            i += 1;
        }
        assert(self.balls@ =~= checked(old(self)@.balls));
    }

    /// The last phase of a tick: removes every ball and every brick that is
    /// marked. Their slots stay empty from now on.
    pub fn apply_despawn(&mut self)
        ensures
            final(self)@ == (WorldView {
                balls: swept_balls(old(self)@.balls),
                bricks: swept_bricks(old(self)@.bricks),
                ..old(self)@
            }),
    {
        let mut i: usize = 0;
        while i < self.balls.len()
            invariant
                i <= self.balls.len(),
                self.balls.len() == old(self).balls.len(),
                self.paddle == old(self).paddle,
                self.bricks == old(self).bricks,
                self.walls == old(self).walls,
                forall|j: int| 0 <= j < i ==> self.balls[j] == swept_ball(old(self).balls[j]),
                forall|j: int| i <= j < self.balls.len() ==> self.balls[j] == old(self).balls[j],
            decreases self.balls.len() - i,
        {
            let slot = self.balls[i];
            match slot {
                Some(ball) => {
                    if ball.despawn {
                        self.balls.set(i, None);
                    }
                },
                None => {},
            }
            i += 1;
        }
        let ghost swept = self.balls@;
        let mut j: usize = 0;
        while j < self.bricks.len()
            invariant
                j <= self.bricks.len(),
                self.bricks.len() == old(self).bricks.len(),
                self.paddle == old(self).paddle,
                self.balls@ == swept,
                self.walls == old(self).walls,
                forall|k: int| 0 <= k < j ==> self.bricks[k] == swept_brick(old(self).bricks[k]),
                forall|k: int| j <= k < self.bricks.len() ==> self.bricks[k] == old(self).bricks[k],
            decreases self.bricks.len() - j,
        {
            let slot = self.bricks[j];
            match slot {
                Some(brick) => {
                    if brick.despawn {
                        self.bricks.set(j, None);
                    }
                },
                None => {},
            }
            j += 1;
        }
        assert(self.balls@ =~= swept_balls(old(self)@.balls));
        assert(self.bricks@ =~= swept_bricks(old(self)@.bricks));
    }

    /// Runs the five phases of a tick in their order. Returns where bonus
    /// bricks were destroyed; the balls they release are not yet added.
    pub fn step(&mut self, scoreboard: &mut Scoreboard, input: PaddleInput, dt: u32) -> (bursts:
        Vec<Vec2>)
        ensures
            final(self)@ == spec_step(old(self)@, input, dt).world,
            final(scoreboard).score == spec_add_score(
                old(scoreboard).score,
                spec_step(old(self)@, input, dt).hits,
            ),
            bursts@ == spec_step(old(self)@, input, dt).bursts,
    {
        self.move_paddle(input, dt);
        self.move_ball(dt);
        let bursts = self.check_ball_collision(scoreboard);
        self.check_despawn_ball();
        self.apply_despawn();
        bursts
    }

    /// Adds a ball at `position` that flies in `direction`. Returns its
    /// handle.
    pub fn spawn_ball(&mut self, position: Vec2, direction: Vec2) -> (handle: usize)
        ensures
            handle == old(self)@.balls.len(),
            final(self)@ == (WorldView {
                balls: old(self)@.balls.push(Some(spec_launch(position, direction))),
                ..old(self)@
            }),
    {
        let handle = self.balls.len();
        self.balls.push(Some(Ball::launch(position, direction)));
        handle
    }

    /// Adds a brick. Returns its handle.
    pub fn spawn_brick(&mut self, brick: Brick) -> (handle: usize)
        ensures
            handle == old(self)@.bricks.len(),
            final(self)@ == (WorldView {
                bricks: old(self)@.bricks.push(Some(brick)),
                ..old(self)@
            }),
    {
        let handle = self.bricks.len();
        self.bricks.push(Some(brick));
        handle
    }

    /// Adds `num_balls` balls at `position`, each in a direction of its own
    /// drawn from `rng`.
    pub fn spawn_rnd_balls(&mut self, rng: &mut StdRng, position: Vec2, num_balls: usize)
        ensures
            final(self)@.paddle == old(self)@.paddle,
            final(self)@.bricks == old(self)@.bricks,
            final(self)@.walls == old(self)@.walls,
            final(self)@.balls.len() == old(self)@.balls.len() + num_balls,
            final(self)@.balls.subrange(0, old(self)@.balls.len() as int) == old(self)@.balls,
            forall|i: int|
                old(self)@.balls.len() <= i < final(self)@.balls.len() ==> is_released_slot(
                    #[trigger] final(self)@.balls[i],
                    position,
                ),
    {
        let mut n: usize = 0;
        assert(self.balls@.subrange(0, old(self)@.balls.len() as int) =~= old(self)@.balls);
        while n < num_balls
            invariant
                n <= num_balls,
                self.paddle == old(self).paddle,
                self.bricks@ == old(self).bricks@,
                self.walls@ == old(self).walls@,
                self.balls@.len() == old(self)@.balls.len() + n,
                self.balls@.subrange(0, old(self)@.balls.len() as int) == old(self)@.balls,
                forall|i: int|
                    old(self)@.balls.len() <= i < self.balls@.len() ==> is_released_slot(
                        #[trigger] self.balls@[i],
                        position,
                    ),
            decreases num_balls - n,
        {
            let ghost prior = self.balls@;
            let direction = random_direction(rng);
            self.spawn_ball(position, direction);
            proof {
                assert(self.balls@ == prior.push(Some(spec_launch(position, direction))));
                assert(self.balls@.subrange(0, old(self)@.balls.len() as int) =~= prior.subrange(
                    0,
                    old(self)@.balls.len() as int,
                ));
                assert forall|i: int|
                    old(self)@.balls.len() <= i < self.balls@.len() implies is_released_slot(
                    #[trigger] self.balls@[i],
                    position,
                ) by {
                    if i < prior.len() {
                        assert(self.balls@[i] == prior[i]);
                    }
                }
            }
            n += 1;
        }
    }

    /// One tick of the simulation: the five phases, then the release of
    /// `BONUS_BALLS` balls for each bonus brick destroyed in this tick. The
    /// new balls start where the ball was that destroyed the brick.
    pub fn tick(
        &mut self,
        scoreboard: &mut Scoreboard,
        rng: &mut StdRng,
        input: PaddleInput,
        dt: u32,
    )
        ensures
            final(self)@.paddle == spec_step(old(self)@, input, dt).world.paddle,
            final(self)@.bricks == spec_step(old(self)@, input, dt).world.bricks,
            final(self)@.walls == spec_step(old(self)@, input, dt).world.walls,
            is_released(
                spec_step(old(self)@, input, dt).world.balls,
                final(self)@.balls,
                spec_step(old(self)@, input, dt).bursts,
            ),
            final(scoreboard).score == spec_add_score(
                old(scoreboard).score,
                spec_step(old(self)@, input, dt).hits,
            ),
    {
        let bursts = self.step(scoreboard, input, dt);
        let ghost after = self@;
        let mut j: usize = 0;
        assert(self.balls@.subrange(0, after.balls.len() as int) =~= after.balls);
        while j < bursts.len()
            invariant
                j <= bursts.len(),
                self.paddle == after.paddle,
                self.bricks@ == after.bricks,
                self.walls@ == after.walls,
                is_released(after.balls, self.balls@, bursts@.take(j as int)),
            decreases bursts.len() - j,
        {
            let ghost prior = self.balls@;
            self.spawn_rnd_balls(rng, bursts[j], BONUS_BALLS);
            proof {
                let done = bursts@.take(j as int);
                let next = bursts@.take(j + 1);
                assert(self.balls@.subrange(0, after.balls.len() as int) =~= prior.subrange(
                    0,
                    prior.len() as int,
                ).subrange(0, after.balls.len() as int));
                assert(prior.subrange(0, prior.len() as int) =~= prior);
                assert forall|i: int| after.balls.len() <= i < self.balls@.len() implies is_released_slot(
                    #[trigger] self.balls@[i],
                    next[(i - after.balls.len()) / (BONUS_BALLS as int)],
                ) by {
                    let k = i - after.balls.len();
                    if i < prior.len() {
                        assert(self.balls@[i] == prior.subrange(0, prior.len() as int)[i]);
                        assert(is_released_slot(prior[i], done[k / (BONUS_BALLS as int)]));
                        assert(next[k / (BONUS_BALLS as int)] == done[k / (BONUS_BALLS as int)]);
                    } else {
                        assert(k / (BONUS_BALLS as int) == j);
                    }
                }
            }
            j += 1;
        }
        assert(bursts@.take(bursts.len() as int) =~= bursts@);
    }

    /// Removes every object of the session and every slot with it: the
    /// handles of a session end with it.
    pub fn clear_ingame(&mut self)
        ensures
            final(self)@.paddle is None,
            final(self)@.balls.len() == 0,
            final(self)@.bricks.len() == 0,
            final(self)@.walls.len() == 0,
    {
        self.paddle = None;
        self.balls = Vec::new();
        self.bricks = Vec::new();
        self.walls = Vec::new();
    }

    /// Lays out `num_rows` rows of bricks, their kinds drawn from `rng`.
    pub fn setup_bricks(&mut self, rng: &mut StdRng, num_rows: i32)
        ensures
            final(self)@.paddle == old(self)@.paddle,
            final(self)@.balls == old(self)@.balls,
            final(self)@.walls == old(self)@.walls,
            is_field_drawn(
                old(self)@.bricks,
                final(self)@.bricks,
                if num_rows > 0 {
                    num_rows as int
                } else {
                    0
                },
            ),
            is_field_added(
                old(self)@.bricks,
                final(self)@.bricks,
                if num_rows > 0 {
                    num_rows as int
                } else {
                    0
                },
            ),
    {
        setup_bricks(&mut self.bricks, rng, num_rows);
    }

    /// Starts a session: the score goes back to zero, and the world gets its
    /// paddle, one ball, the three walls and the brick field.
    pub fn setup_ingame(&mut self, scoreboard: &mut Scoreboard, rng: &mut StdRng)
        ensures
            final(scoreboard).score == 0,
            final(self)@.paddle == Some(start_paddle()),
            final(self)@.balls == old(self)@.balls.push(Some(start_ball())),
            final(self)@.walls == old(self)@.walls + start_walls(),
            is_field_drawn(old(self)@.bricks, final(self)@.bricks, DEFAULT_BRICK_ROWS as int),
            is_field_added(old(self)@.bricks, final(self)@.bricks, DEFAULT_BRICK_ROWS as int),
    {
        scoreboard.score = 0;
        self.paddle = Some(
            Paddle {
                position: Vec2 { x: 0, y: PADDLE_START_Y },
                size: Vec2 { x: PADDLE_WIDTH, y: PADDLE_HEIGHT },
            },
        );
        self.spawn_ball(
            Vec2 { x: BALL_START_X, y: BALL_START_Y },
            Vec2 { x: BALL_INIT_DIRECTION_X, y: BALL_INIT_DIRECTION_Y },
        );
        let side = Vec2 { x: WALL_THICKNESS, y: HIGHER_BOUND_Y - LOWER_BOUND_Y + WALL_THICKNESS };
        let ceiling = Vec2 {
            x: HIGHER_BOUND_X - LOWER_BOUND_X + WALL_THICKNESS,
            y: WALL_THICKNESS,
        };
        self.walls.push(Wall { position: Vec2 { x: LOWER_BOUND_X, y: 0 }, size: side });
        self.walls.push(Wall { position: Vec2 { x: HIGHER_BOUND_X, y: 0 }, size: side });
        self.walls.push(Wall { position: Vec2 { x: 0, y: HIGHER_BOUND_Y }, size: ceiling });
        assert(self.walls@ =~= old(self)@.walls + start_walls());
        self.setup_bricks(rng, DEFAULT_BRICK_ROWS);
    }
}

} // verus!
