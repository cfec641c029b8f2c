//! The whole game: one frame after another, in a fixed order.

use crate::bullet::{
    all_damaged, all_in_flight, are_in_flight, flown, hits_on, lemma_flown_in_flight,
    lemma_hits_are_bounded, missing, spawn_bullet_parent, update_bullets, Bullet, BulletParent,
    BULLET_DAMAGE,
};
use crate::enemy::{
    breached, dead_count, lemma_lane_is_kept, lemma_spawn_keeps_room,
    lemma_spawned_in_lane, living, marched, spawn_enemy_parent, update_enemies,
    update_enemies_with, with_spawn, Enemy, EnemyParent, KILL_REWARD, LOWER_BOUNDARY, SIZE_STEPS,
};
use crate::gamestate::{GameState, Score};
use crate::player::{pause_game, player_movement, spawn_player, Input, Player, PLAYER_START_Y};
use crate::seq_facts::lemma_filter_keeps;
use crate::timer::{Timer, TimerMode};
use crate::units::travel;
use rand::rngs::StdRng;
use vstd::prelude::*;

verus! {

/// Everything that makes up a game in progress.
pub struct Game {
    pub state: GameState,
    pub score: Score,
    pub player: Player,
    pub bullets: BulletParent,
    pub enemies: EnemyParent,
}

/// A game as a mathematical value: the collections as sequences, in their
/// insertion order.
pub struct GameView {
    pub state: GameState,
    pub score: Score,
    pub player: Player,
    pub bullets: Seq<Bullet>,
    pub spawn_timer: Timer,
    pub enemies: Seq<Enemy>,
}

impl View for Game {
    type V = GameView;

    open spec fn view(&self) -> GameView {
        GameView {
            state: self.state,
            score: self.score,
            player: self.player,
            bullets: self.bullets.bullets@,
            spawn_timer: self.enemies.spawn_timer,
            enemies: self.enemies.enemies@,
        }
    }
}

impl GameView {
    /// A new game: playing, no points, the ship at its start, nothing else on
    /// the field, and the spawn timer at the start of its first period.
    pub open spec fn start() -> GameView {
        GameView {
            state: GameState::Playing,
            score: Score { current: 0, best: 0 },
            player: Player::start(),
            bullets: Seq::empty(),
            spawn_timer: Timer::fresh(2_000_000, TimerMode::Repeating),
            enemies: Seq::empty(),
        }
    }

    /// The bullets in the air after the ship's move and the bullets' spawn,
    /// move and lifetime phases.
    pub open spec fn airborne(self, dt: int, input: Input) -> Seq<Bullet> {
        flown(self.bullets, dt, input, self.player.moved(dt, input, self.state))
    }

    /// The enemies after the bullets' collision phase and the enemies' own
    /// spawn and move phases.
    pub open spec fn lined_up(
        self,
        dt: int,
        input: Input,
        size_roll: u32,
        heading_roll: u32,
    ) -> Seq<Enemy> {
        marched(
            all_damaged(self.airborne(dt, input), self.enemies),
            self.spawn_timer.advanced(dt),
            dt,
            size_roll,
            heading_roll,
        )
    }

    /// The game after the subsystems have run for one frame, before any change
    /// of state. While playing, the ship moves first, then the bullets go
    /// through spawn, move, lifetime and collision, then the enemies through
    /// spawn, move and death cleanup, each dead enemy adding its reward to the
    /// score. While the game is over nothing moves.
    pub open spec fn simulated(
        self,
        dt: int,
        input: Input,
        size_roll: u32,
        heading_roll: u32,
    ) -> GameView {
        if self.state == GameState::Playing {
            GameView {
                state: self.state,
                score: Score {
                    current: (self.score.current + KILL_REWARD * dead_count(
                        self.lined_up(dt, input, size_roll, heading_roll),
                    )) as u64,
                    best: self.score.best,
                },
                player: self.player.moved(dt, input, self.state),
                bullets: missing(self.airborne(dt, input), self.enemies),
                spawn_timer: self.spawn_timer.advanced(dt),
                enemies: living(self.lined_up(dt, input, size_roll, heading_roll)),
            }
        } else {
            self
        }
    }

    /// The state that a simulated frame leads to: the toggle signal switches
    /// to the other state; without it, a round that is playing ends if an
    /// enemy is below the lower boundary, and nothing else changes the state.
    pub open spec fn requested_state(self, input: Input) -> GameState {
        if input.toggle_state {
            self.state.toggled()
        } else if self.state == GameState::Playing && breached(self.enemies) {
            GameState::GameOver
        } else {
            self.state
        }
    }

    /// The game after a change of state to `next`. Ending a round takes the
    /// snapshot of the best score. Leaving the end of a round for a replay
    /// starts the current score over and clears all bullets and enemies.
    /// Staying in a state changes nothing.
    pub open spec fn entered(self, next: GameState) -> GameView {
        if self.state == GameState::Playing && next == GameState::GameOver {
            GameView { state: next, score: self.score.round_ended(), ..self }
        } else if self.state == GameState::GameOver && next == GameState::Playing {
            GameView {
                state: next,
                score: self.score.round_restarted(),
                bullets: Seq::empty(),
                enemies: Seq::empty(),
                ..self
            }
        } else {
            self
        }
    }

    /// The game one frame on: the subsystems run, then the state they ask for
    /// is entered.
    pub open spec fn step(
        self,
        dt: int,
        input: Input,
        size_roll: u32,
        heading_roll: u32,
    ) -> GameView {
        let run = self.simulated(dt, input, size_roll, heading_roll);
        run.entered(run.requested_state(input))
    }

    /// Whether every enemy is on the field: in its lane and not below the
    /// lower boundary.
    pub open spec fn enemies_on_field(enemies: Seq<Enemy>) -> bool {
        forall|j: int|
            0 <= j < enemies.len() ==> (#[trigger] enemies[j]).in_lane() && enemies[j].pos.y
                >= LOWER_BOUNDARY
    }

    /// Whether every enemy is alive.
    pub open spec fn enemies_alive(enemies: Seq<Enemy>) -> bool {
        forall|j: int| 0 <= j < enemies.len() ==> (#[trigger] enemies[j]).is_alive()
    }

    /// What holds between the frames of a game: the ship is at its height,
    /// and while a round is playing every bullet is in flight and every enemy
    /// is alive and on the field.
    pub open spec fn wf(self) -> bool {
        &&& self.player.pos.y == PLAYER_START_Y
        &&& self.state == GameState::Playing ==> {
            &&& all_in_flight(self.bullets)
            &&& GameView::enemies_on_field(self.enemies)
            &&& GameView::enemies_alive(self.enemies)
        }
    }

    /// Whether the numbers that the rules let grow without bound still have
    /// room for one more frame: the ship's position, and while playing the
    /// time carried by the spawn timer, the score, and the health that the
    /// live bullets could take off an enemy.
    pub open spec fn has_room(self, dt: int, input: Input) -> bool {
        &&& self.player.can_move(dt, input, self.state)
        &&& self.state == GameState::Playing ==> {
            &&& self.spawn_timer.can_advance(dt)
            &&& self.score.current + KILL_REWARD * self.enemies.len() <= u64::MAX
            &&& BULLET_DAMAGE * (self.bullets.len() + 1) <= i64::MAX
        }
    }
}

/// A frame that starts well-formed and with room fits every phase's number
/// ranges, whatever is rolled, and ends well-formed.
pub proof fn lemma_step_keeps_wf(
    game: GameView,
    dt: u32,
    input: Input,
    size_roll: u32,
    heading_roll: u32,
)
    requires
        game.wf(),
        game.has_room(dt as int, input),
        1 <= size_roll <= SIZE_STEPS,
    ensures
        game.state == GameState::Playing ==> {
            &&& crate::bullet::update_fits(
                game.bullets,
                game.enemies,
                dt as int,
                input,
                game.player.moved(dt as int, input, game.state),
            )
            &&& crate::enemy::update_fits(
                all_damaged(game.airborne(dt as int, input), game.enemies),
                game.spawn_timer,
                game.score,
                dt as int,
            )
            &&& dead_count(game.lined_up(dt as int, input, size_roll, heading_roll)) == dead_count(
                all_damaged(game.airborne(dt as int, input), game.enemies),
            )
        },
        game.step(dt as int, input, size_roll, heading_roll).wf(),
{
    if game.state == GameState::Playing {
        let player = game.player.moved(dt as int, input, game.state);
        let airborne = game.airborne(dt as int, input);
        let hurt = all_damaged(airborne, game.enemies);
        let timer = game.spawn_timer.advanced(dt as int);
        let lined_up = game.lined_up(dt as int, input, size_roll, heading_roll);
        lemma_flown_in_flight(game.bullets, game.enemies, dt, input, player);
        assert forall|j: int| 0 <= j < game.enemies.len() implies (
        #[trigger] game.enemies[j]).health - BULLET_DAMAGE * hits_on(airborne, game.enemies, j)
            >= i64::MIN by {
            lemma_hits_are_bounded(airborne, game.enemies, j);
            assert(game.enemies[j].is_alive());
        }
        assert forall|j: int| 0 <= j < hurt.len() implies (#[trigger] hurt[j]).in_lane()
            && hurt[j].pos.y >= LOWER_BOUNDARY && hurt[j].can_move(dt as int) by {
            lemma_hits_are_bounded(airborne, game.enemies, j);
            assert(game.enemies[j].in_lane());
            lemma_lane_is_kept(hurt[j], dt);
        }
        hurt.lemma_filter_len(|enemy: Enemy| !enemy.is_alive());
        assert(KILL_REWARD * dead_count(hurt) <= KILL_REWARD * game.enemies.len())
            by (nonlinear_arith)
            requires
                dead_count(hurt) <= game.enemies.len(),
        ;
        lemma_spawn_keeps_room(hurt, timer, dt, size_roll, heading_roll);
        let grown = with_spawn(hurt, timer, size_roll, heading_roll);
        lemma_spawned_in_lane(size_roll, heading_roll);
        assert forall|j: int| 0 <= j < lined_up.len() implies (
        #[trigger] lined_up[j]).in_lane() by {
            if j < hurt.len() {
                assert(hurt[j].in_lane());
            }
            lemma_lane_is_kept(grown[j], dt);
        }
        lemma_filter_keeps(
            lined_up,
            |enemy: Enemy| enemy.is_alive(),
            |enemy: Enemy| enemy.in_lane(),
        );
        let run = game.simulated(dt as int, input, size_roll, heading_roll);
        if run.requested_state(input) == GameState::Playing {
            assert(!breached(run.enemies));
            assert(GameView::enemies_on_field(run.enemies));
            assert(GameView::enemies_alive(run.enemies));
        }
    }
}

impl Game {
    /// Sets up a new game.
    pub fn new() -> (game: Game)
        ensures
            game@ == GameView::start(),
            game@.wf(),
    {
        Game {
            state: GameState::Playing,
            score: Score::new(),
            player: spawn_player(),
            bullets: spawn_bullet_parent(),
            enemies: spawn_enemy_parent(),
        }
    }

    /// Enters the state `next` and does what the change calls for.
    pub fn set_state(&mut self, next: GameState)
        ensures
            final(self)@ == old(self)@.entered(next),
    {
        if self.state == GameState::Playing && next == GameState::GameOver {
            self.score.end_round();
        } else if self.state == GameState::GameOver && next == GameState::Playing {
            self.score.restart_round();
            crate::bullet::reset(&mut self.bullets);
            crate::enemy::reset(&mut self.enemies);
        }
        self.state = next;
    }

    /// Tells whether the game is as it should be between two frames.
    pub fn is_well_formed(&self) -> (ok: bool)
        ensures
            ok == self@.wf(),
    {
        if self.player.pos.y != PLAYER_START_Y {
            return false;
        }
        if self.state == GameState::GameOver {
            return true;
        }
        if !are_in_flight(&self.bullets) {
            return false;
        }
        let count: usize = self.enemies.enemies.len();
        let mut j: usize = 0;
        while j < count
            invariant
                j <= count,
                count == self.enemies.enemies@.len(),
                self.state == GameState::Playing,
                self.player.pos.y == PLAYER_START_Y,
                all_in_flight(self.bullets.bullets@),
                forall|k: int|
                    0 <= k < j ==> (#[trigger] self.enemies.enemies@[k]).in_lane()
                        && self.enemies.enemies@[k].pos.y >= LOWER_BOUNDARY
                        && self.enemies.enemies@[k].is_alive(),
            decreases count - j,
        {
            let enemy: Enemy = self.enemies.enemies[j];
            if !enemy.is_in_lane() || enemy.pos.y < LOWER_BOUNDARY || enemy.health <= 0 {
                proof {
                    if self@.wf() {
                        assert(self@.enemies[j as int].in_lane());
                        assert(self@.enemies[j as int].is_alive());
                    }
                }
                return false;
            }
            j += 1;
        }
        true
    }

    /// Tells whether the game has room for a frame of `dt` microseconds with
    /// this input.
    pub fn can_update(&self, dt: u32, input: &Input) -> (ok: bool)
        ensures
            ok == self@.has_room(dt as int, *input),
    {
        if self.state == GameState::GameOver {
            return true;
        }
        let amount: u128 = travel(self.player.speed, dt);
        let low: i128 = i64::MIN as i128;
        let high: i128 = i64::MAX as i128;
        proof {
            crate::units::lemma_travel_bounds(
                self.player.speed as int,
                dt as int,
                u64::MAX as int,
            );
            assert(u64::MAX * dt <= 0xffff_ffff_ffff_ffff * 0xffff_ffff) by (nonlinear_arith)
                requires
                    dt <= 0xffff_ffff,
            ;
        }
        let mut x: i128 = self.player.pos.x as i128;
        if input.move_right {
            x = x + amount as i128;
            if x > high {
                return false;
            }
        }
        if input.move_left {
            x = x - amount as i128;
            if x < low {
                return false;
            }
        }
        let timer = self.enemies.spawn_timer;
        let carried: u128 = timer.elapsed as u128 + dt as u128;
        let timer_fits: bool = match timer.mode {
            TimerMode::Once => true,
            TimerMode::Repeating => carried <= timer.target as u128 + u64::MAX as u128,
        };
        let reward: u128 = KILL_REWARD as u128 * self.enemies.enemies.len() as u128;
        let score_fits: bool = self.score.current as u128 + reward <= u64::MAX as u128;
        let damage: u128 = BULLET_DAMAGE as u128 * (self.bullets.bullets.len() as u128 + 1);
        let health_fits: bool = damage <= i64::MAX as u128;
        timer_fits && score_fits && health_fits
    }

    /// One frame of `dt` microseconds with the rolls given. The rolls only
    /// matter if the spawn timer fires in this frame.
    pub fn update_with(&mut self, dt: u32, input: &Input, size_roll: u32, heading_roll: u32)
        requires
            old(self)@.wf(),
            old(self)@.has_room(dt as int, *input),
            1 <= size_roll <= SIZE_STEPS,
            heading_roll <= 1,
        ensures
            final(self)@ == old(self)@.step(dt as int, *input, size_roll, heading_roll),
            final(self)@.wf(),
    {
        proof {
            lemma_step_keeps_wf(old(self)@, dt, *input, size_roll, heading_roll);
        }
        let state = self.state;
        player_movement(&mut self.player, dt, input, state);
        let mut next = pause_game(input, state);
        if state == GameState::Playing {
            let player = self.player;
            update_bullets(&mut self.bullets, &mut self.enemies, dt, input, &player);
            let ended = update_enemies_with(
                &mut self.enemies,
                &mut self.score,
                state,
                dt,
                size_roll,
                heading_roll,
            );
            if ended == GameState::GameOver {
                next = GameState::GameOver;
            }
            assert(self@ == old(self)@.simulated(dt as int, *input, size_roll, heading_roll));
        }
        self.set_state(next);
    }

    /// One frame of `dt` microseconds, with the rolls for a spawned enemy drawn
    /// from `rng`. Whatever the generator yields, the frame is the one that
    /// some pair of valid rolls gives.
    pub fn update(&mut self, dt: u32, input: &Input, rng: &mut StdRng)
        requires
            old(self)@.wf(),
            old(self)@.has_room(dt as int, *input),
        ensures
            exists|size_roll: u32, heading_roll: u32|
                1 <= size_roll <= SIZE_STEPS && heading_roll <= 1 && final(self)@
                    == #[trigger] old(self)@.step(dt as int, *input, size_roll, heading_roll),
            final(self)@.wf(),
    {
        proof {
            lemma_step_keeps_wf(old(self)@, dt, *input, 1, 0);
        }
        let state = self.state;
        player_movement(&mut self.player, dt, input, state);
        let mut next = pause_game(input, state);
        let ghost mut rolls: (u32, u32) = (1, 0);
        if state == GameState::Playing {
            let player = self.player;
            update_bullets(&mut self.bullets, &mut self.enemies, dt, input, &player);
            let ghost hurt = self.enemies.enemies@;
            let ended = update_enemies(&mut self.enemies, &mut self.score, state, dt, rng);
            if ended == GameState::GameOver {
                next = GameState::GameOver;
            }
            proof {
                rolls = choose|size_roll: u32, heading_roll: u32|
                    1 <= size_roll <= SIZE_STEPS && heading_roll <= 1 && self.enemies.enemies@
                        == living(
                        #[trigger] marched(
                            hurt,
                            self.enemies.spawn_timer,
                            dt as int,
                            size_roll,
                            heading_roll,
                        ),
                    );
                lemma_step_keeps_wf(old(self)@, dt, *input, rolls.0, rolls.1);
            }
            assert(self@ == old(self)@.simulated(dt as int, *input, rolls.0, rolls.1));
        }
        self.set_state(next);
        assert(self@ == old(self)@.step(dt as int, *input, rolls.0, rolls.1));
    }
}

/// A replay starts from nothing: leaving the end of a round for a new one
/// clears every bullet and every enemy and sets the current score to zero,
/// and the best score is what it was. The best score only changes when a
/// round ends, where it takes up the current score if that is higher.
pub proof fn lemma_replay_resets_round(game: GameView)
    ensures
        game.state == GameState::GameOver ==> {
            let replay = game.entered(GameState::Playing);
            &&& replay.state == GameState::Playing
            &&& replay.bullets.len() == 0
            &&& replay.enemies.len() == 0
            &&& replay.score.current == 0
            &&& replay.score.best == game.score.best
            &&& replay.player == game.player
            &&& replay.spawn_timer == game.spawn_timer
        },
        game.state == GameState::Playing ==> {
            let over = game.entered(GameState::GameOver);
            &&& over.state == GameState::GameOver
            &&& over.score.current == game.score.current
            &&& over.score.best >= game.score.best
            &&& over.score.best >= game.score.current
            &&& over.score.best == game.score.best || over.score.best == game.score.current
            &&& over.bullets == game.bullets
            &&& over.enemies == game.enemies
        },
        game.entered(game.state) == game,
{
}

/// While the game is over a frame changes nothing unless the toggle signal is
/// set, and then it is the replay: whatever the frame time, the other input
/// and the rolls.
pub proof fn lemma_frame_while_over(
    game: GameView,
    dt: int,
    input: Input,
    size_roll: u32,
    heading_roll: u32,
)
    requires
        game.state == GameState::GameOver,
    ensures
        !input.toggle_state ==> game.step(dt, input, size_roll, heading_roll) == game,
        input.toggle_state ==> game.step(dt, input, size_roll, heading_roll) == game.entered(
            GameState::Playing,
        ),
{
}

/// While a round is playing it ends on the frame after which an enemy is
/// below the lower boundary, and on a toggle signal, and on no other frame.
pub proof fn lemma_round_ends_on_breach(
    game: GameView,
    dt: int,
    input: Input,
    size_roll: u32,
    heading_roll: u32,
)
    requires
        game.state == GameState::Playing,
    ensures
        game.step(dt, input, size_roll, heading_roll).state == GameState::GameOver <==> (
        input.toggle_state || breached(
            living(game.lined_up(dt, input, size_roll, heading_roll)),
        )),
{
}

} // verus!
