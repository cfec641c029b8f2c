//! The player's ship and the part of the input that steers the game.

use crate::collision_shape::Point;
use crate::gamestate::GameState;
use crate::units::{lemma_travel_bounds, travel, travel_spec};
use vstd::prelude::*;

verus! {

/// Where the ship starts.
pub const PLAYER_START_X: i64 = 0;

pub const PLAYER_START_Y: i64 = -180_000_000;

/// Sideways speed of the ship, in position steps per second.
pub const PLAYER_SPEED: u64 = 400_000_000;

/// The input signals of one frame. `fire` and `toggle_state` are true only on
/// the frame in which their key goes down; the two moves are true for as long
/// as their key is held.
#[derive(Clone, Copy, Debug, PartialEq, Eq, Structural)]
pub struct Input {
    pub fire: bool,
    pub move_left: bool,
    pub move_right: bool,
    pub toggle_state: bool,
}

/// The player's ship.
#[derive(Clone, Copy, Debug, PartialEq, Eq, Structural)]
pub struct Player {
    pub pos: Point,
    pub speed: u64,
}

impl Player {
    /// The ship as a game starts with it.
    pub open spec fn start() -> Player {
        Player { pos: Point { x: PLAYER_START_X, y: PLAYER_START_Y }, speed: PLAYER_SPEED }
    }

    /// The x after the move to the right, if that key is held.
    pub open spec fn x_after_right(self, dt: int, input: Input) -> int {
        if input.move_right {
            self.pos.x + travel_spec(self.speed as int, dt)
        } else {
            self.pos.x as int
        }
    }

    /// The x after both moves. Each held key applies its own shift, so holding
    /// both takes the ship right and then back left by the same amount.
    pub open spec fn x_after_moves(self, dt: int, input: Input) -> int {
        if input.move_left {
            self.x_after_right(dt, input) - travel_spec(self.speed as int, dt)
        } else {
            self.x_after_right(dt, input)
        }
    }

    /// The ship after a frame: it only moves while the game is playing, and
    /// only sideways.
    pub open spec fn moved(self, dt: int, input: Input, state: GameState) -> Player {
        if state == GameState::Playing {
            Player {
                pos: Point { x: self.x_after_moves(dt, input) as i64, y: self.pos.y },
                speed: self.speed,
            }
        } else {
            self
        }
    }

    /// Whether the frame's moves fit the coordinate range. Nothing stops the
    /// ship at the edge of the screen, so this is the only limit there is.
    pub open spec fn can_move(self, dt: int, input: Input, state: GameState) -> bool {
        state == GameState::Playing ==> {
            &&& i64::MIN <= self.x_after_right(dt, input) <= i64::MAX
            &&& i64::MIN <= self.x_after_moves(dt, input) <= i64::MAX
        }
    }
}

/// Puts the ship at its starting point.
pub fn spawn_player() -> (player: Player)
    ensures
        player == Player::start(),
{
    Player { pos: Point { x: PLAYER_START_X, y: PLAYER_START_Y }, speed: PLAYER_SPEED }
}

/// Moves the ship for one frame of `dt` microseconds.
pub fn player_movement(player: &mut Player, dt: u32, input: &Input, state: GameState)
    requires
        old(player).can_move(dt as int, *input, state),
    ensures
        *final(player) == old(player).moved(dt as int, *input, state),
{
    match state {
        GameState::Playing => {
            let amount: u128 = travel(player.speed, dt);
            proof {
                lemma_travel_bounds(player.speed as int, dt as int, u64::MAX as int);
                assert(u64::MAX * dt <= 0xffff_ffff_ffff_ffff * 0xffff_ffff) by (nonlinear_arith)
                    requires
                        dt <= 0xffff_ffff,
                ;
            }
            if input.move_right {
                player.pos.x = (player.pos.x as i128 + amount as i128) as i64;
            }
            if input.move_left {
                player.pos.x = (player.pos.x as i128 - amount as i128) as i64;
            }
        },
        GameState::GameOver => {},
    }
}

/// The state that the toggle signal asks for: the other state when it is
/// set, the same state when it is not.
pub fn pause_game(input: &Input, state: GameState) -> (next: GameState)
    ensures
        next == if input.toggle_state {
            state.toggled()
        } else {
            state
        },
{
    if input.toggle_state {
        match state {
            GameState::Playing => GameState::GameOver,
            GameState::GameOver => GameState::Playing,
        }
    } else {
        state
    }
}

} // verus!
