//! The state machine of the game: a menu, from which play starts, and play,
//! which ends in the menu once no ball or no brick is left.

use vstd::prelude::*;
use rand::rngs::StdRng;
use crate::config::DEFAULT_BRICK_ROWS;
use crate::entity::Scoreboard;
use crate::collision::spec_add_score;
use crate::field::{is_field_added, is_field_drawn};
use crate::motion::PaddleInput;
use crate::palette::{Interaction, Rgb, button_color, spec_button_color};
use crate::world::{
    World, WorldView, is_released, population, spec_step, start_ball, start_paddle, start_walls,
};

verus! {

/// The two states of the game. The game starts in `InGameOver`, the menu.
#[derive(Clone, Copy, Debug, PartialEq, Eq, Structural, Hash)]
pub enum AppState {
    InGamePlay,
    InGameOver,
}

impl Default for AppState {
    fn default() -> (state: AppState)
        ensures
            state == AppState::InGameOver,
    {
        AppState::InGameOver
    }
}

/// How a session ended. It serves the message to the player only.
#[derive(Clone, Copy, Debug, PartialEq, Eq, Structural)]
pub enum Outcome {
    /// Every brick is destroyed and a ball is left.
    Win,
    /// No ball is left.
    Lose,
}

/// The end of a session, as the menu shows it.
#[derive(Clone, Copy, Debug, PartialEq, Eq, Structural)]
pub struct GameOver {
    pub outcome: Outcome,
    pub score: u64,
}

/// The game: its state, the score, and the world of the current session.
#[derive(Debug)]
pub struct Game {
    state: AppState,
    scoreboard: Scoreboard,
    world: World,
}

/// The mathematical content of a `Game`.
pub struct GameView {
    pub state: AppState,
    pub score: u64,
    pub world: WorldView,
}

/// A world without any object.
pub open spec fn is_cleared(w: WorldView) -> bool {
    w.paddle is None && w.balls.len() == 0 && w.bricks.len() == 0 && w.walls.len() == 0
}

/// What holds of the game at all times: in the menu there is no world, for
/// the objects of a session go when it ends.
pub open spec fn menu_is_cleared(game: GameView) -> bool {
    game.state == AppState::InGameOver ==> is_cleared(game.world)
}

/// Whether a session in this world is over, and how: without a ball it is
/// lost, whatever bricks are left; with a ball and without a brick it is won.
pub open spec fn spec_outcome(w: WorldView) -> Option<Outcome> {
    if population(w.balls) == 0 {
        Some(Outcome::Lose)
    } else if population(w.bricks) == 0 {
        Some(Outcome::Win)
    } else {
        None
    }
}

/// Whether `w` is the world of a new standard session.
pub open spec fn is_start_world(w: WorldView) -> bool {
    &&& w.paddle == Some(start_paddle())
    &&& w.balls == seq![Some(start_ball())]
    &&& w.walls == start_walls()
    &&& is_field_drawn(Seq::empty(), w.bricks, DEFAULT_BRICK_ROWS as int)
    &&& is_field_added(Seq::empty(), w.bricks, DEFAULT_BRICK_ROWS as int)
}

impl View for Game {
    type V = GameView;

    closed spec fn view(&self) -> GameView {
        GameView { state: self.state, score: self.scoreboard.score, world: self.world@ }
    }
}

impl Game {
    /// The game as it starts: in the menu, with no score and no world.
    pub fn new() -> (game: Game)
        ensures
            game@.state == AppState::InGameOver,
            game@.score == 0,
            is_cleared(game@.world),
            menu_is_cleared(game@),
    {
        Game {
            state: AppState::InGameOver,
            scoreboard: Scoreboard { score: 0 },
            world: World::new(),
        }
    }

    /// The current state.
    pub fn state(&self) -> (state: AppState)
        ensures
            state == self@.state,
    {
        self.state
    }

    /// The current score.
    pub fn score(&self) -> (score: u64)
        ensures
            score == self@.score,
    {
        self.scoreboard.score
    }

    /// The world of the current session, to look at.
    pub fn world(&self) -> (world: &World)
        ensures
            world@ == self@.world,
    {
        &self.world
    }

    /// Enters play with the given world in place of the standard one. The
    /// score goes back to zero.
    pub fn start_with(&mut self, world: World)
        ensures
            final(self)@.state == AppState::InGamePlay,
            final(self)@.score == 0,
            final(self)@.world == world@,
            menu_is_cleared(final(self)@),
    {
        self.state = AppState::InGamePlay;
        self.scoreboard.score = 0;
        self.world = world;
    }

    /// The menu's reaction to the pointer. Returns the colour of the "Play"
    /// button. In the menu, pressing the button enters play: the score goes
    /// back to zero and a standard session is set up. During play nothing
    /// changes.
    pub fn menu(&mut self, rng: &mut StdRng, interaction: Interaction) -> (color: Rgb)
        ensures
            color == spec_button_color(interaction),
            old(self)@.state == AppState::InGameOver && interaction == Interaction::Pressed ==> {
                &&& final(self)@.state == AppState::InGamePlay
                &&& final(self)@.score == 0
                &&& is_start_world(final(self)@.world)
            },
            !(old(self)@.state == AppState::InGameOver && interaction == Interaction::Pressed)
                ==> final(self)@ == old(self)@,
            menu_is_cleared(old(self)@) ==> menu_is_cleared(final(self)@),
    {
        let starts = match (self.state, interaction) {
            (AppState::InGameOver, Interaction::Pressed) => true,
            _ => false,
        };
        if starts {
            self.world.clear_ingame();
            self.state = AppState::InGamePlay;
            self.world.setup_ingame(&mut self.scoreboard, rng);
            proof {
                let w = self.world@;
                assert(w.balls =~= seq![Some(start_ball())]);
                assert(w.walls =~= start_walls());
                assert(w.bricks.subrange(0, 0) =~= Seq::empty());
            }
        }
        button_color(interaction)
    }

    /// One fixed tick. During play the world takes one simulation tick and
    /// the score rises by the hits; in the menu nothing happens.
    pub fn fixed_update(&mut self, rng: &mut StdRng, input: PaddleInput, dt: u32)
        ensures
            final(self)@.state == old(self)@.state,
            old(self)@.state == AppState::InGameOver ==> final(self)@ == old(self)@,
            old(self)@.state == AppState::InGamePlay ==> {
                let step = spec_step(old(self)@.world, input, dt);
                &&& final(self)@.world.paddle == step.world.paddle
                &&& final(self)@.world.bricks == step.world.bricks
                &&& final(self)@.world.walls == step.world.walls
                &&& is_released(step.world.balls, final(self)@.world.balls, step.bursts)
                &&& final(self)@.score == spec_add_score(old(self)@.score, step.hits)
            },
            menu_is_cleared(old(self)@) ==> menu_is_cleared(final(self)@),
    {
        match self.state {
            AppState::InGamePlay => {
                self.world.tick(&mut self.scoreboard, rng, input, dt);
            },
            AppState::InGameOver => {},
        }
    }

    /// Ends the session if it is over. During play, once no ball or no brick
    /// is left, the game goes to the menu, the world is cleared, and the
    /// outcome is returned with the final score. The score stays.
    pub fn check_game_over(&mut self) -> (over: Option<GameOver>)
        ensures
            final(self)@.score == old(self)@.score,
            old(self)@.state == AppState::InGamePlay && spec_outcome(old(self)@.world) is Some
                ==> {
                &&& final(self)@.state == AppState::InGameOver
                &&& is_cleared(final(self)@.world)
                &&& over == Some(
                    GameOver {
                        outcome: spec_outcome(old(self)@.world).unwrap(),
                        score: old(self)@.score,
                    },
                )
            },
            !(old(self)@.state == AppState::InGamePlay && spec_outcome(old(self)@.world) is Some)
                ==> over is None && final(self)@ == old(self)@,
            menu_is_cleared(old(self)@) ==> menu_is_cleared(final(self)@),
    {
        match self.state {
            AppState::InGameOver => None,
            AppState::InGamePlay => {
                let num_balls = self.world.ball_count();
                let num_bricks = self.world.brick_count();
                if num_balls == 0 || num_bricks == 0 {
                    let outcome = if num_balls == 0 {
                        Outcome::Lose
                    } else {
                        Outcome::Win
                    };
                    self.world.clear_ingame();
                    self.state = AppState::InGameOver;
                    Some(GameOver { outcome, score: self.scoreboard.score })
                } else {
                    None
                }
            },
        }
    }
}

} // verus!
