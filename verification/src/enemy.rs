//! Enemies: timed spawning, the sideways sweep with its step down, the removal
//! of dead enemies and the check that ends a round.

use crate::collision_shape::{create_circle_collider, update_circle_collider, CircleCollider, Point};
use crate::gamestate::{GameState, Score};
use crate::random::roll;
use crate::timer::{Timer, TimerMode};
use crate::units::{lemma_travel_bounds, travel, travel_spec, UNIT};
use rand::rngs::StdRng;
use vstd::prelude::*;

verus! {

/// Where every enemy appears: the top centre of the play field.
pub const ENEMY_SPAWN_X: i64 = 0;

pub const ENEMY_SPAWN_Y: i64 = 180_000_000;

/// An enemy that gets past this x turns back to the left and steps down.
pub const RIGHT_WALL: i64 = 320_000_000;

/// An enemy that gets past this x turns back to the right and steps down.
pub const LEFT_WALL: i64 = -320_000_000;

/// How far an enemy drops on each bounce.
pub const STEP_DOWN: i64 = 50_000_000;

/// An enemy below this y ends the round.
pub const LOWER_BOUNDARY: i64 = -150_000_000;

/// Seconds between two spawns.
pub const SPAWN_PERIOD_SECONDS: u32 = 2;

/// Points awarded for a destroyed enemy.
pub const KILL_REWARD: u64 = 100;

/// The size roll is one of `1..=SIZE_STEPS`.
pub const SIZE_STEPS: u32 = 5;

/// No enemy is faster than this: the speed formula peaks below it.
pub const ENEMY_SPEED_LIMIT: u64 = 800_000_000;

/// Size factor for a size roll: a fifth per step on top of 1.0.
pub open spec fn size_factor(size_roll: int) -> int {
    UNIT + size_roll * UNIT / 5
}

/// Health of an enemy: 50 times the square of its size factor.
pub open spec fn enemy_health(size: int) -> int {
    50 * size * size / (UNIT * UNIT)
}

/// The part of the speed that depends on size: `1 - (1 - size)^2`, as a factor.
pub open spec fn speed_basis(size: int) -> int {
    UNIT - (size - UNIT) * (size - UNIT) / (UNIT as int)
}

/// Speed of an enemy, in position steps per second: 200 units per second
/// times `3 * speed_basis + 1`.
pub open spec fn enemy_speed(size: int) -> int {
    200 * (speed_basis(size) * 3 + UNIT)
}

/// Radius of an enemy's hitbox: 70 units times its size factor.
pub open spec fn enemy_radius(size: int) -> int {
    70 * size
}

/// On the five size steps the formulas come out without rounding.
pub proof fn lemma_spawn_formulas(size_roll: int)
    requires
        1 <= size_roll <= 5,
    ensures
        size_factor(size_roll) == 1_000_000 + 200_000 * size_roll,
        enemy_health(size_factor(size_roll)) == 2 * ((size_roll + 5) * (size_roll + 5)),
        speed_basis(size_factor(size_roll)) == 1_000_000 - 40_000 * (size_roll * size_roll),
        enemy_speed(size_factor(size_roll)) == 800_000_000 - 24_000_000 * (size_roll
            * size_roll),
        enemy_radius(size_factor(size_roll)) == 14_000_000 * (size_roll + 5),
{
    let size = size_factor(size_roll);
    let steps = size_roll + 5;
    assert(size == 200_000 * steps);
    assert(50 * size * size == 2_000_000_000_000 * (steps * steps)) by (nonlinear_arith)
        requires
            size == 200_000 * steps,
    ;
    assert(UNIT * UNIT == 1_000_000_000_000) by (nonlinear_arith)
        requires
            UNIT == 1_000_000,
    ;
    let over = size - UNIT;
    assert(over * over == 40_000_000_000 * (size_roll * size_roll)) by (nonlinear_arith)
        requires
            over == 200_000 * size_roll,
    ;
}

/// One live enemy.
#[derive(Clone, Copy, Debug, PartialEq, Eq, Structural)]
pub struct Enemy {
    pub pos: Point,
    /// Size factor, for the hitbox and for whoever draws the enemy.
    pub size: u32,
    /// Hit points left; the enemy is dead at zero or below.
    pub health: i64,
    /// Sideways speed in position steps per second.
    pub speed: u64,
    /// `true` while the enemy sweeps to the right.
    pub movement_direction: bool,
    pub hitbox: CircleCollider,
}

impl Enemy {
    /// The enemy that a size roll and a heading roll produce at the spawn
    /// point. A heading roll of 1 sends it to the right.
    pub open spec fn spawned(size_roll: u32, heading_roll: u32) -> Enemy {
        let size = size_factor(size_roll as int);
        let pos = Point { x: ENEMY_SPAWN_X, y: ENEMY_SPAWN_Y };
        Enemy {
            pos,
            size: size as u32,
            health: enemy_health(size) as i64,
            speed: enemy_speed(size) as u64,
            movement_direction: heading_roll == 1,
            hitbox: CircleCollider { pos, radius: enemy_radius(size) as u32 },
        }
    }

    /// Builds the enemy for the given rolls.
    pub fn spawn(size_roll: u32, heading_roll: u32) -> (enemy: Enemy)
        requires
            1 <= size_roll <= SIZE_STEPS,
            heading_roll <= 1,
        ensures
            enemy == Enemy::spawned(size_roll, heading_roll),
    {
        proof {
            lemma_spawn_formulas(size_roll as int);
        }
        let size: u64 = UNIT + size_roll as u64 * UNIT / 5;
        let over: u64 = size - UNIT;
        assert(50 * size * size <= 200_000_000_000_000 && over * over <= 1_000_000_000_000)
            by (nonlinear_arith)
            requires
                size <= 2_000_000,
                over <= 1_000_000,
        ;
        assert((size - UNIT) * (size - UNIT) == over * over);
        let health: u64 = 50 * size * size / (UNIT * UNIT);
        let basis: u64 = UNIT - over * over / UNIT;
        let speed: u64 = 200 * (basis * 3 + UNIT);
        let radius: u64 = 70 * size;
        let pos = Point { x: ENEMY_SPAWN_X, y: ENEMY_SPAWN_Y };
        Enemy {
            pos,
            size: size as u32,
            health: health as i64,
            speed,
            movement_direction: heading_roll == 1,
            hitbox: create_circle_collider(pos, radius as u32),
        }
    }

    /// Whether the enemy still has health left.
    pub open spec fn is_alive(self) -> bool {
        self.health > 0
    }

    /// The x that the sweep reaches after `dt` microseconds.
    pub open spec fn swept_x(self, dt: int) -> int {
        if self.movement_direction {
            self.pos.x + travel_spec(self.speed as int, dt)
        } else {
            self.pos.x - travel_spec(self.speed as int, dt)
        }
    }

    /// Whether the sweep carries the enemy past one of the walls.
    pub open spec fn bounces(self, dt: int) -> bool {
        self.swept_x(dt) > RIGHT_WALL || self.swept_x(dt) < LEFT_WALL
    }

    /// The enemy after `dt` microseconds: it moves sideways, and if that takes
    /// it past a wall it turns to head back and drops one step. The hitbox
    /// follows.
    pub open spec fn moved(self, dt: int) -> Enemy {
        let x = self.swept_x(dt);
        let pos = Point {
            x: x as i64,
            y: if self.bounces(dt) {
                (self.pos.y - STEP_DOWN) as i64
            } else {
                self.pos.y
            },
        };
        Enemy {
            pos,
            movement_direction: if x > RIGHT_WALL {
                false
            } else if x < LEFT_WALL {
                true
            } else {
                self.movement_direction
            },
            hitbox: CircleCollider { pos, radius: self.hitbox.radius },
            ..self
        }
    }

    /// Whether the moved position fits the coordinate range.
    pub open spec fn can_move(self, dt: int) -> bool {
        &&& i64::MIN <= self.swept_x(dt) <= i64::MAX
        &&& self.bounces(dt) ==> self.pos.y - STEP_DOWN >= i64::MIN
    }

    /// Moves the enemy by one frame of `dt` microseconds.
    pub fn advance(&mut self, dt: u32)
        requires
            old(self).can_move(dt as int),
        ensures
            *final(self) == old(self).moved(dt as int),
    {
        let distance: u128 = travel(self.speed, dt);
        proof {
            lemma_travel_bounds(self.speed as int, dt as int, u64::MAX as int);
            assert(u64::MAX * dt <= 0xffff_ffff_ffff_ffff * 0xffff_ffff) by (nonlinear_arith)
                requires
                    dt <= 0xffff_ffff,
            ;
        }
        let x: i128 = if self.movement_direction {
            self.pos.x as i128 + distance as i128
        } else {
            self.pos.x as i128 - distance as i128
        };
        let mut pos = Point { x: x as i64, y: self.pos.y };
        if x > RIGHT_WALL as i128 {
            self.movement_direction = false;
            pos.y = pos.y - STEP_DOWN;
        } else if x < LEFT_WALL as i128 {
            self.movement_direction = true;
            pos.y = pos.y - STEP_DOWN;
        }
        self.pos = pos;
        update_circle_collider(&mut self.hitbox, pos);
    }

    /// What holds of every enemy that was spawned and then only moved: its
    /// speed is within the limit, its hitbox sits on it, it never strays
    /// further past a wall than one frame can carry it, and once past a wall
    /// it is heading back.
    pub open spec fn in_lane(self) -> bool {
        &&& self.speed <= ENEMY_SPEED_LIMIT
        &&& self.hitbox.pos == self.pos
        &&& LEFT_WALL - travel_spec(ENEMY_SPEED_LIMIT as int, u32::MAX as int) <= self.pos.x
            <= RIGHT_WALL + travel_spec(ENEMY_SPEED_LIMIT as int, u32::MAX as int)
        &&& self.pos.x > RIGHT_WALL ==> !self.movement_direction
        &&& self.pos.x < LEFT_WALL ==> self.movement_direction
    }
}

/// A spawned enemy is in its lane, alive, and no stronger than the largest
/// size allows.
pub proof fn lemma_spawned_in_lane(size_roll: u32, heading_roll: u32)
    requires
        1 <= size_roll <= SIZE_STEPS,
    ensures
        Enemy::spawned(size_roll, heading_roll).in_lane(),
        Enemy::spawned(size_roll, heading_roll).is_alive(),
        Enemy::spawned(size_roll, heading_roll).health <= 200,
        Enemy::spawned(size_roll, heading_roll).pos.y == ENEMY_SPAWN_Y,
{
    lemma_spawn_formulas(size_roll as int);
    lemma_travel_bounds(0, u32::MAX as int, ENEMY_SPEED_LIMIT as int);
    let r: int = size_roll as int;
    assert(0 < r * r <= 25) by (nonlinear_arith)
        requires
            1 <= r <= 5,
    ;
    assert(36 <= (r + 5) * (r + 5) <= 100) by (nonlinear_arith)
        requires
            1 <= r <= 5,
    ;
}

/// An enemy in its lane can always make its sideways move, and stays in its
/// lane; only the step down needs room below.
pub proof fn lemma_lane_is_kept(enemy: Enemy, dt: u32)
    requires
        enemy.in_lane(),
    ensures
        i64::MIN <= enemy.swept_x(dt as int) <= i64::MAX,
        enemy.pos.y - STEP_DOWN >= i64::MIN ==> enemy.can_move(dt as int),
        enemy.can_move(dt as int) ==> {
            &&& enemy.moved(dt as int).in_lane()
            &&& enemy.pos.y - STEP_DOWN <= enemy.moved(dt as int).pos.y <= enemy.pos.y
        },
        enemy.moved(dt as int).health == enemy.health,
{
    lemma_travel_bounds(enemy.speed as int, dt as int, ENEMY_SPEED_LIMIT as int);
    lemma_travel_bounds(ENEMY_SPEED_LIMIT as int, dt as int, ENEMY_SPEED_LIMIT as int);
    lemma_travel_reach(dt);
}

/// The furthest that the fastest enemy gets in the longest frame.
proof fn lemma_travel_reach(dt: u32)
    ensures
        travel_spec(ENEMY_SPEED_LIMIT as int, dt as int) <= travel_spec(
            ENEMY_SPEED_LIMIT as int,
            u32::MAX as int,
        ),
        travel_spec(ENEMY_SPEED_LIMIT as int, u32::MAX as int) == 3_435_973_836_000,
{
    let a: int = 800_000_000int * dt;
    let b: int = 800_000_000int * 0xffff_ffffint;
    assert(a / 1_000_000 <= b / 1_000_000) by (nonlinear_arith)
        requires
            a <= b,
    ;
}

/// The enemies of a round together with the timer that paces their arrival.
pub struct EnemyParent {
    pub spawn_timer: Timer,
    pub enemies: Vec<Enemy>,
}

/// An empty enemy collection whose spawn timer repeats every two seconds.
pub fn spawn_enemy_parent() -> (parent: EnemyParent)
    ensures
        parent.spawn_timer == Timer::fresh(2_000_000, TimerMode::Repeating),
        parent.enemies@ == Seq::<Enemy>::empty(),
{
    EnemyParent {
        spawn_timer: Timer::from_seconds(SPAWN_PERIOD_SECONDS, TimerMode::Repeating),
        enemies: Vec::new(),
    }
}

/// The enemies after the spawn phase, given the timer as it stands after the
/// frame's advance: a firing timer adds the enemy that the rolls produce at
/// the end; otherwise nothing changes.
pub open spec fn with_spawn(
    enemies: Seq<Enemy>,
    timer: Timer,
    size_roll: u32,
    heading_roll: u32,
) -> Seq<Enemy> {
    if timer.finished {
        enemies.push(Enemy::spawned(size_roll, heading_roll))
    } else {
        enemies
    }
}

/// Spawn phase with the rolls given: advances the spawn timer by `dt` and, if
/// it fires, adds the enemy for these rolls.
pub fn spawn_enemy_with(parent: &mut EnemyParent, dt: u32, size_roll: u32, heading_roll: u32)
    requires
        old(parent).spawn_timer.can_advance(dt as int),
        1 <= size_roll <= SIZE_STEPS,
        heading_roll <= 1,
    ensures
        final(parent).spawn_timer == old(parent).spawn_timer.advanced(dt as int),
        final(parent).enemies@ == with_spawn(
            old(parent).enemies@,
            final(parent).spawn_timer,
            size_roll,
            heading_roll,
        ),
{
    parent.spawn_timer.advance(dt);
    if parent.spawn_timer.finished() {
        parent.enemies.push(Enemy::spawn(size_roll, heading_roll));
    }
}

/// Spawn phase: advances the spawn timer by `dt` and, if it fires, rolls a
/// size and a heading and adds the enemy for them. Whatever the generator
/// yields, the new enemy is one of those that valid rolls produce.
pub fn spawn_enemy(parent: &mut EnemyParent, dt: u32, rng: &mut StdRng)
    requires
        old(parent).spawn_timer.can_advance(dt as int),
    ensures
        final(parent).spawn_timer == old(parent).spawn_timer.advanced(dt as int),
        exists|size_roll: u32, heading_roll: u32|
            1 <= size_roll <= SIZE_STEPS && heading_roll <= 1 && final(parent).enemies@
                == #[trigger] with_spawn(
                old(parent).enemies@,
                final(parent).spawn_timer,
                size_roll,
                heading_roll,
            ),
{
    parent.spawn_timer.advance(dt);
    if parent.spawn_timer.finished() {
        let size_roll: u32 = roll(rng, 1, SIZE_STEPS);
        let heading_roll: u32 = roll(rng, 0, 1);
        parent.enemies.push(Enemy::spawn(size_roll, heading_roll));
        assert(parent.enemies@ == with_spawn(
            old(parent).enemies@,
            parent.spawn_timer,
            size_roll,
            heading_roll,
        ));
    } else {
        assert(parent.enemies@ == with_spawn(old(parent).enemies@, parent.spawn_timer, 1, 0));
    }
}

/// All enemies after one frame of movement, each in its old place.
pub open spec fn all_moved(enemies: Seq<Enemy>, dt: int) -> Seq<Enemy> {
    enemies.map_values(|enemy: Enemy| enemy.moved(dt))
}

/// Whether every enemy's move fits the coordinate range.
pub open spec fn all_can_move(enemies: Seq<Enemy>, dt: int) -> bool {
    forall|i: int| 0 <= i < enemies.len() ==> (#[trigger] enemies[i]).can_move(dt)
}

/// Move phase: every enemy sweeps on for `dt` microseconds.
pub fn update_enemy_pos(parent: &mut EnemyParent, dt: u32)
    requires
        all_can_move(old(parent).enemies@, dt as int),
    ensures
        final(parent).spawn_timer == old(parent).spawn_timer,
        final(parent).enemies@ == all_moved(old(parent).enemies@, dt as int),
{
    let count: usize = parent.enemies.len();
    let mut i: usize = 0;
    while i < count
        invariant
            i <= count,
            count == parent.enemies@.len(),
            count == old(parent).enemies@.len(),
            parent.spawn_timer == old(parent).spawn_timer,
            all_can_move(old(parent).enemies@, dt as int),
            forall|j: int|
                0 <= j < i ==> parent.enemies@[j] == old(parent).enemies@[j].moved(dt as int),
            forall|j: int| i <= j < count ==> parent.enemies@[j] == old(parent).enemies@[j],
        decreases count - i,
    {
        let mut enemy: Enemy = parent.enemies[i];
        enemy.advance(dt);
        parent.enemies.set(i, enemy);
        i += 1;
    }
    assert(parent.enemies@ =~= all_moved(old(parent).enemies@, dt as int));
}

/// The enemies that are still alive, in their old order.
pub open spec fn living(enemies: Seq<Enemy>) -> Seq<Enemy> {
    enemies.filter(|enemy: Enemy| enemy.is_alive())
}

/// How many of the enemies are dead.
pub open spec fn dead_count(enemies: Seq<Enemy>) -> nat {
    enemies.filter(|enemy: Enemy| !enemy.is_alive()).len()
}

/// Every enemy is either alive or dead.
pub proof fn lemma_living_and_dead(enemies: Seq<Enemy>)
    ensures
        living(enemies).len() + dead_count(enemies) == enemies.len(),
        forall|i: int|
            0 <= i < living(enemies).len() ==> (#[trigger] living(enemies)[i]).is_alive(),
    decreases enemies.len(),
{
    let alive = |enemy: Enemy| enemy.is_alive();
    let dead = |enemy: Enemy| !enemy.is_alive();
    if enemies.len() > 0 {
        let head = enemies.drop_last();
        lemma_living_and_dead(head);
        assert(head.push(enemies.last()) =~= enemies);
        head.lemma_filter_push(enemies.last(), alive);
        head.lemma_filter_push(enemies.last(), dead);
    } else {
        assert(enemies.filter(alive).len() <= enemies.len()) by {
            enemies.lemma_filter_len(alive);
        }
        assert(enemies.filter(dead).len() <= enemies.len()) by {
            enemies.lemma_filter_len(dead);
        }
    }
    assert forall|i: int| 0 <= i < living(enemies).len() implies (#[trigger] living(
        enemies,
    )[i]).is_alive() by {
        enemies.lemma_filter_pred(alive, i);
    }
}

/// One more enemy looked at: how the living and the dead of a prefix grow.
proof fn lemma_cleanup_step(enemies: Seq<Enemy>, i: int)
    requires
        0 <= i < enemies.len(),
    ensures
        living(enemies.take(i + 1)) == if enemies[i].is_alive() {
            living(enemies.take(i)).push(enemies[i])
        } else {
            living(enemies.take(i))
        },
        dead_count(enemies.take(i + 1)) == dead_count(enemies.take(i)) + if enemies[i].is_alive() {
            0int
        } else {
            1int
        },
        dead_count(enemies.take(i + 1)) <= dead_count(enemies),
{
    let alive = |enemy: Enemy| enemy.is_alive();
    let dead = |enemy: Enemy| !enemy.is_alive();
    assert(enemies.take(i).push(enemies[i]) =~= enemies.take(i + 1));
    enemies.take(i).lemma_filter_push(enemies[i], alive);
    enemies.take(i).lemma_filter_push(enemies[i], dead);
    enemies.lemma_filter_take_len(dead, i + 1);
}

/// Death cleanup: destroys every enemy whose health is at zero or below and
/// awards [`KILL_REWARD`] points for each. The survivors keep their order.
pub fn remove_dead_enemies(parent: &mut EnemyParent, score: &mut Score)
    requires
        old(score).current + KILL_REWARD * dead_count(old(parent).enemies@) <= u64::MAX,
    ensures
        final(parent).spawn_timer == old(parent).spawn_timer,
        final(parent).enemies@ == living(old(parent).enemies@),
        final(score).current == old(score).current + KILL_REWARD * dead_count(
            old(parent).enemies@,
        ),
        final(score).best == old(score).best,
{
    let count: usize = parent.enemies.len();
    let mut survivors: Vec<Enemy> = Vec::new();
    let mut i: usize = 0;
    assert(parent.enemies@.take(0) =~= Seq::<Enemy>::empty());
    assert(living(Seq::<Enemy>::empty()) =~= Seq::<Enemy>::empty()) by {
        Seq::<Enemy>::empty().lemma_filter_len(|enemy: Enemy| enemy.is_alive());
    }
    assert(dead_count(Seq::<Enemy>::empty()) == 0) by {
        Seq::<Enemy>::empty().lemma_filter_len(|enemy: Enemy| !enemy.is_alive());
    }
    while i < count
        invariant
            i <= count,
            count == parent.enemies@.len(),
            parent.enemies@ == old(parent).enemies@,
            parent.spawn_timer == old(parent).spawn_timer,
            survivors@ == living(parent.enemies@.take(i as int)),
            score.current == old(score).current + KILL_REWARD * dead_count(
                parent.enemies@.take(i as int),
            ),
            score.best == old(score).best,
            old(score).current + KILL_REWARD * dead_count(parent.enemies@) <= u64::MAX,
        decreases count - i,
    {
        proof {
            lemma_cleanup_step(parent.enemies@, i as int);
        }
        let enemy: Enemy = parent.enemies[i];
        if enemy.health <= 0 {
            score.current = score.current + KILL_REWARD;
        } else {
            survivors.push(enemy);
        }
        i += 1;
    }
    assert(parent.enemies@.take(count as int) =~= parent.enemies@);
    parent.enemies = survivors;
}

/// Whether some enemy is below the lower boundary.
pub open spec fn breached(enemies: Seq<Enemy>) -> bool {
    exists|i: int| 0 <= i < enemies.len() && (#[trigger] enemies[i]).pos.y < LOWER_BOUNDARY
}

/// Round-end check: the state to go to next. The game is over as soon as any
/// one enemy is below the lower boundary, wherever the others are; otherwise
/// the state stays as it is.
pub fn end_game(parent: &EnemyParent, state: GameState) -> (next: GameState)
    ensures
        next == if breached(parent.enemies@) {
            GameState::GameOver
        } else {
            state
        },
{
    let count: usize = parent.enemies.len();
    let mut i: usize = 0;
    while i < count
        invariant
            i <= count,
            count == parent.enemies@.len(),
            forall|j: int| 0 <= j < i ==> (#[trigger] parent.enemies@[j]).pos.y >= LOWER_BOUNDARY,
        decreases count - i,
    {
        if parent.enemies[i].pos.y < LOWER_BOUNDARY {
            return GameState::GameOver;
        }
        i += 1;
    }
    state
}

/// Tears the whole enemy collection down for a fresh round. The spawn timer
/// runs on.
pub fn reset(parent: &mut EnemyParent)
    ensures
        final(parent).spawn_timer == old(parent).spawn_timer,
        final(parent).enemies@ == Seq::<Enemy>::empty(),
{
    parent.enemies.clear();
}

/// The enemies after the spawn and move phases of a frame, given the spawn
/// timer as it stands after the frame's advance.
pub open spec fn marched(
    enemies: Seq<Enemy>,
    timer: Timer,
    dt: int,
    size_roll: u32,
    heading_roll: u32,
) -> Seq<Enemy> {
    all_moved(with_spawn(enemies, timer, size_roll, heading_roll), dt)
}

/// Whether the enemies' frame fits the number ranges: the spawn timer can
/// advance, every enemy can move, and the score has room for the reward of
/// every dead enemy.
pub open spec fn update_fits(enemies: Seq<Enemy>, timer: Timer, score: Score, dt: int) -> bool {
    &&& timer.can_advance(dt)
    &&& all_can_move(enemies, dt)
    &&& score.current + KILL_REWARD * dead_count(enemies) <= u64::MAX
}

/// Moving changes no enemy's health, so it changes nothing about who is dead.
pub proof fn lemma_move_keeps_the_dead(enemies: Seq<Enemy>, dt: int)
    ensures
        dead_count(all_moved(enemies, dt)) == dead_count(enemies),
    decreases enemies.len(),
{
    let dead = |enemy: Enemy| !enemy.is_alive();
    if enemies.len() == 0 {
        assert(all_moved(enemies, dt) =~= enemies);
    } else {
        let head = enemies.drop_last();
        lemma_move_keeps_the_dead(head, dt);
        assert(head.push(enemies.last()) =~= enemies);
        assert(all_moved(head, dt).push(enemies.last().moved(dt)) =~= all_moved(enemies, dt));
        head.lemma_filter_push(enemies.last(), dead);
        all_moved(head, dt).lemma_filter_push(enemies.last().moved(dt), dead);
    }
}

/// A newly spawned enemy can make its first move and is not dead, so a spawn
/// takes nothing away from the room that a frame has.
pub proof fn lemma_spawn_keeps_room(
    enemies: Seq<Enemy>,
    timer: Timer,
    dt: u32,
    size_roll: u32,
    heading_roll: u32,
)
    requires
        1 <= size_roll <= SIZE_STEPS,
        all_can_move(enemies, dt as int),
    ensures
        all_can_move(with_spawn(enemies, timer, size_roll, heading_roll), dt as int),
        dead_count(marched(enemies, timer, dt as int, size_roll, heading_roll)) == dead_count(
            enemies,
        ),
{
    let newcomer = Enemy::spawned(size_roll, heading_roll);
    let grown = with_spawn(enemies, timer, size_roll, heading_roll);
    lemma_spawned_in_lane(size_roll, heading_roll);
    lemma_lane_is_kept(newcomer, dt);
    assert forall|i: int| 0 <= i < grown.len() implies (#[trigger] grown[i]).can_move(
        dt as int,
    ) by {
        if i < enemies.len() {
            assert(enemies[i].can_move(dt as int));
        }
    }
    lemma_move_keeps_the_dead(grown, dt as int);
    if timer.finished {
        enemies.lemma_filter_push(newcomer, |enemy: Enemy| !enemy.is_alive());
    }
}

/// The phases that follow the spawn: move, death cleanup and round-end check.
/// Returns the state to go to next.
pub fn march_and_check(
    parent: &mut EnemyParent,
    score: &mut Score,
    state: GameState,
    dt: u32,
) -> (next: GameState)
    requires
        all_can_move(old(parent).enemies@, dt as int),
        old(score).current + KILL_REWARD * dead_count(old(parent).enemies@) <= u64::MAX,
    ensures
        final(parent).spawn_timer == old(parent).spawn_timer,
        final(parent).enemies@ == living(all_moved(old(parent).enemies@, dt as int)),
        final(score).current == old(score).current + KILL_REWARD * dead_count(
            old(parent).enemies@,
        ),
        final(score).best == old(score).best,
        next == if breached(final(parent).enemies@) {
            GameState::GameOver
        } else {
            state
        },
{
    proof {
        lemma_move_keeps_the_dead(parent.enemies@, dt as int);
    }
    update_enemy_pos(parent, dt);
    remove_dead_enemies(parent, score);
    end_game(parent, state)
}

/// The enemies' whole frame with the rolls given, in its fixed order: spawn,
/// move, death cleanup, round-end check. Returns the state to go to next.
pub fn update_enemies_with(
    parent: &mut EnemyParent,
    score: &mut Score,
    state: GameState,
    dt: u32,
    size_roll: u32,
    heading_roll: u32,
) -> (next: GameState)
    requires
        update_fits(old(parent).enemies@, old(parent).spawn_timer, *old(score), dt as int),
        1 <= size_roll <= SIZE_STEPS,
        heading_roll <= 1,
    ensures
        final(parent).spawn_timer == old(parent).spawn_timer.advanced(dt as int),
        final(parent).enemies@ == living(
            marched(
                old(parent).enemies@,
                final(parent).spawn_timer,
                dt as int,
                size_roll,
                heading_roll,
            ),
        ),
        final(score).current == old(score).current + KILL_REWARD * dead_count(
            old(parent).enemies@,
        ),
        final(score).best == old(score).best,
        next == if breached(final(parent).enemies@) {
            GameState::GameOver
        } else {
            state
        },
{
    spawn_enemy_with(parent, dt, size_roll, heading_roll);
    proof {
        lemma_spawn_keeps_room(
            old(parent).enemies@,
            parent.spawn_timer,
            dt,
            size_roll,
            heading_roll,
        );
        lemma_move_keeps_the_dead(parent.enemies@, dt as int);
    }
    march_and_check(parent, score, state, dt)
}

/// The enemies' whole frame: as [`update_enemies_with`], with the rolls drawn
/// from `rng` when the spawn timer fires. Whatever the generator yields, the
/// outcome is the one that some pair of valid rolls gives.
pub fn update_enemies(
    parent: &mut EnemyParent,
    score: &mut Score,
    state: GameState,
    dt: u32,
    rng: &mut StdRng,
) -> (next: GameState)
    requires
        update_fits(old(parent).enemies@, old(parent).spawn_timer, *old(score), dt as int),
    ensures
        final(parent).spawn_timer == old(parent).spawn_timer.advanced(dt as int),
        exists|size_roll: u32, heading_roll: u32|
            1 <= size_roll <= SIZE_STEPS && heading_roll <= 1 && final(parent).enemies@ == living(
                #[trigger] marched(
                    old(parent).enemies@,
                    final(parent).spawn_timer,
                    dt as int,
                    size_roll,
                    heading_roll,
                ),
            ),
        final(score).current == old(score).current + KILL_REWARD * dead_count(
            old(parent).enemies@,
        ),
        final(score).best == old(score).best,
        next == if breached(final(parent).enemies@) {
            GameState::GameOver
        } else {
            state
        },
{
    spawn_enemy(parent, dt, rng);
    let ghost (size_roll, heading_roll): (u32, u32) = choose|size_roll: u32, heading_roll: u32|
        1 <= size_roll <= SIZE_STEPS && heading_roll <= 1 && parent.enemies@
            == #[trigger] with_spawn(
            old(parent).enemies@,
            parent.spawn_timer,
            size_roll,
            heading_roll,
        );
    proof {
        lemma_spawn_keeps_room(
            old(parent).enemies@,
            parent.spawn_timer,
            dt,
            size_roll,
            heading_roll,
        );
        lemma_move_keeps_the_dead(parent.enemies@, dt as int);
    }
    let ghost timer = parent.spawn_timer;
    let next = march_and_check(parent, score, state, dt);
    assert(parent.enemies@ == living(
        marched(old(parent).enemies@, timer, dt as int, size_roll, heading_roll),
    ));
    next
}

/// An enemy that is alive and below the lower boundary ends the round on the
/// enemies' next frame, wherever the other enemies are and whatever is
/// spawned: the move only takes it lower and the cleanup lets it be.
pub proof fn lemma_enemy_below_boundary_ends_round(
    enemies: Seq<Enemy>,
    i: int,
    timer: Timer,
    dt: u32,
    size_roll: u32,
    heading_roll: u32,
)
    requires
        0 <= i < enemies.len(),
        enemies[i].pos.y < LOWER_BOUNDARY,
        enemies[i].is_alive(),
        enemies[i].can_move(dt as int),
    ensures
        breached(living(marched(enemies, timer, dt as int, size_roll, heading_roll))),
{
    let alive = |enemy: Enemy| enemy.is_alive();
    let lined_up = marched(enemies, timer, dt as int, size_roll, heading_roll);
    let culprit = lined_up[i];
    assert(culprit == enemies[i].moved(dt as int));
    assert(culprit.pos.y < LOWER_BOUNDARY);
    assert(alive(culprit));
    lined_up.lemma_filter_contains(alive, i);
    let at = choose|at: int| 0 <= at < living(lined_up).len() && living(lined_up)[at] == culprit;
    assert(living(lined_up)[at].pos.y < LOWER_BOUNDARY);
}

impl Enemy {
    /// Tells whether the enemy is in its lane.
    pub fn is_in_lane(&self) -> (ok: bool)
        ensures
            ok == self.in_lane(),
    {
        proof {
            lemma_travel_reach(0);
        }
        let reach: i64 = 3_435_973_836_000;
        self.speed <= ENEMY_SPEED_LIMIT && self.hitbox.pos == self.pos && LEFT_WALL - reach
            <= self.pos.x && self.pos.x <= RIGHT_WALL + reach && (self.pos.x <= RIGHT_WALL
            || !self.movement_direction) && (self.pos.x >= LEFT_WALL || self.movement_direction)
    }
}

} // verus!
