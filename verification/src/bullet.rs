//! Bullets: firing, the accelerating climb, expiry and hits on enemies.

use crate::collision_shape::{
    create_circle_collider, is_circle_collision, update_circle_collider, CircleCollider, Point,
};
use crate::enemy::{dead_count, lemma_living_and_dead, living, Enemy, EnemyParent};
use crate::player::{Input, Player, PLAYER_START_Y};
use crate::seq_facts::lemma_filter_keeps;
use crate::timer::{lemma_once_timer_fires_at_target, total_time, Timer, TimerMode};
use crate::units::{lemma_travel_bounds, travel, travel_spec};
use vstd::prelude::*;

verus! {

/// Speed of a bullet as it leaves the ship, in position steps per second.
pub const BULLET_SPEED: u64 = 400_000_000;

/// Speed that a bullet gains per microsecond: 10 units per second each second.
pub const BULLET_ACCELERATION: u64 = 10;

pub const BULLET_RADIUS: u32 = 20_000_000;

/// Seconds that a bullet lives.
pub const BULLET_LIFETIME_SECONDS: u32 = 2;

/// Health that a hit takes from an enemy.
pub const BULLET_DAMAGE: i64 = 10;

/// One live bullet.
#[derive(Clone, Copy, Debug, PartialEq, Eq, Structural)]
pub struct Bullet {
    pub pos: Point,
    /// Upward speed in position steps per second.
    pub speed: u64,
    pub lifetime: Timer,
    pub hitbox: CircleCollider,
}

impl Bullet {
    /// A bullet as it is fired from `pos`.
    pub open spec fn fired_from(pos: Point) -> Bullet {
        Bullet {
            pos,
            speed: BULLET_SPEED,
            lifetime: Timer::fresh(2_000_000, TimerMode::Once),
            hitbox: CircleCollider { pos, radius: BULLET_RADIUS },
        }
    }

    /// Fires a bullet from `pos`.
    pub fn fire(pos: Point) -> (bullet: Bullet)
        ensures
            bullet == Bullet::fired_from(pos),
    {
        Bullet {
            pos,
            speed: BULLET_SPEED,
            lifetime: Timer::from_seconds(BULLET_LIFETIME_SECONDS, TimerMode::Once),
            hitbox: create_circle_collider(pos, BULLET_RADIUS),
        }
    }

    /// The speed after `dt` more microseconds of acceleration.
    pub open spec fn speed_after(self, dt: int) -> int {
        self.speed + BULLET_ACCELERATION * dt
    }

    /// The bullet after `dt` microseconds of flight: it first gains speed, then
    /// climbs at the new speed. The hitbox follows.
    pub open spec fn moved(self, dt: int) -> Bullet {
        let speed = self.speed_after(dt);
        let pos = Point { x: self.pos.x, y: (self.pos.y + travel_spec(speed, dt)) as i64 };
        Bullet {
            pos,
            speed: speed as u64,
            hitbox: CircleCollider { pos, radius: self.hitbox.radius },
            ..self
        }
    }

    /// Whether the new speed and height fit their ranges.
    pub open spec fn can_move(self, dt: int) -> bool {
        &&& self.speed_after(dt) <= u64::MAX
        &&& self.pos.y + travel_spec(self.speed_after(dt), dt) <= i64::MAX
    }

    /// Moves the bullet by one frame of `dt` microseconds.
    pub fn advance(&mut self, dt: u32)
        requires
            old(self).can_move(dt as int),
        ensures
            *final(self) == old(self).moved(dt as int),
    {
        self.speed = self.speed + BULLET_ACCELERATION * (dt as u64);
        let climb: u128 = travel(self.speed, dt);
        proof {
            lemma_travel_bounds(self.speed as int, dt as int, self.speed as int);
        }
        self.pos.y = (self.pos.y as i128 + climb as i128) as i64;
        update_circle_collider(&mut self.hitbox, self.pos);
    }

    /// The bullet with its lifetime timer advanced by `dt` microseconds.
    pub open spec fn aged(self, dt: int) -> Bullet {
        Bullet { lifetime: self.lifetime.advanced(dt), ..self }
    }

    /// Whether the bullet's lifetime is over.
    pub open spec fn expired(self) -> bool {
        self.lifetime.finished
    }
}

/// The live bullets, in the order in which they were fired.
pub struct BulletParent {
    pub bullets: Vec<Bullet>,
}

/// An empty bullet collection.
pub fn spawn_bullet_parent() -> (parent: BulletParent)
    ensures
        parent.bullets@ == Seq::<Bullet>::empty(),
{
    BulletParent { bullets: Vec::new() }
}

/// The bullets after the spawn phase: a fire signal adds one bullet at the
/// ship's position, at the end.
pub open spec fn with_shot(bullets: Seq<Bullet>, input: Input, player: Player) -> Seq<Bullet> {
    if input.fire {
        bullets.push(Bullet::fired_from(player.pos))
    } else {
        bullets
    }
}

/// Spawn phase: one bullet per fire signal, at the ship's position.
pub fn spawn_bullet(parent: &mut BulletParent, input: &Input, player: &Player)
    ensures
        final(parent).bullets@ == with_shot(old(parent).bullets@, *input, *player),
{
    if !input.fire {
        return ;
    }
    parent.bullets.push(Bullet::fire(player.pos));
}

/// All bullets after one frame of flight, each in its old place.
pub open spec fn all_moved(bullets: Seq<Bullet>, dt: int) -> Seq<Bullet> {
    bullets.map_values(|bullet: Bullet| bullet.moved(dt))
}

/// Whether every bullet's move fits its ranges.
pub open spec fn all_can_move(bullets: Seq<Bullet>, dt: int) -> bool {
    forall|i: int| 0 <= i < bullets.len() ==> (#[trigger] bullets[i]).can_move(dt)
}

/// Move phase: every bullet flies on for `dt` microseconds.
pub fn bullet_move(parent: &mut BulletParent, dt: u32)
    requires
        all_can_move(old(parent).bullets@, dt as int),
    ensures
        final(parent).bullets@ == all_moved(old(parent).bullets@, dt as int),
{
    let count: usize = parent.bullets.len();
    let mut i: usize = 0;
    while i < count
        invariant
            i <= count,
            count == parent.bullets@.len(),
            count == old(parent).bullets@.len(),
            all_can_move(old(parent).bullets@, dt as int),
            forall|j: int|
                0 <= j < i ==> parent.bullets@[j] == old(parent).bullets@[j].moved(dt as int),
            forall|j: int| i <= j < count ==> parent.bullets@[j] == old(parent).bullets@[j],
        decreases count - i,
    {
        let mut bullet: Bullet = parent.bullets[i];
        bullet.advance(dt);
        parent.bullets.set(i, bullet);
        i += 1;
    }
    assert(parent.bullets@ =~= all_moved(old(parent).bullets@, dt as int));
}

/// All bullets with their lifetime timers advanced by `dt`.
pub open spec fn all_aged(bullets: Seq<Bullet>, dt: int) -> Seq<Bullet> {
    bullets.map_values(|bullet: Bullet| bullet.aged(dt))
}

/// The bullets whose lifetime is not over, in their old order.
pub open spec fn unexpired(bullets: Seq<Bullet>) -> Seq<Bullet> {
    bullets.filter(|bullet: Bullet| !bullet.expired())
}

/// Whether every bullet's lifetime timer can take `dt` more microseconds.
pub open spec fn all_can_age(bullets: Seq<Bullet>, dt: int) -> bool {
    forall|i: int| 0 <= i < bullets.len() ==> (#[trigger] bullets[i]).lifetime.can_advance(dt)
}

/// One more bullet looked at: how the aged survivors of a prefix grow.
proof fn lemma_lifetime_step(bullets: Seq<Bullet>, dt: int, i: int)
    requires
        0 <= i < bullets.len(),
    ensures
        unexpired(all_aged(bullets.take(i + 1), dt)) == if bullets[i].aged(dt).expired() {
            unexpired(all_aged(bullets.take(i), dt))
        } else {
            unexpired(all_aged(bullets.take(i), dt)).push(bullets[i].aged(dt))
        },
{
    assert(all_aged(bullets.take(i), dt).push(bullets[i].aged(dt)) =~= all_aged(
        bullets.take(i + 1),
        dt,
    ));
    all_aged(bullets.take(i), dt).lemma_filter_push(
        bullets[i].aged(dt),
        |bullet: Bullet| !bullet.expired(),
    );
}

/// Lifetime phase: advances every bullet's timer by `dt` microseconds and
/// destroys the bullets whose timer has finished. The rest keep their order.
pub fn bullet_lifetime(parent: &mut BulletParent, dt: u32)
    requires
        all_can_age(old(parent).bullets@, dt as int),
    ensures
        final(parent).bullets@ == unexpired(all_aged(old(parent).bullets@, dt as int)),
{
    let count: usize = parent.bullets.len();
    let mut kept: Vec<Bullet> = Vec::new();
    let mut i: usize = 0;
    assert(parent.bullets@.take(0) =~= Seq::<Bullet>::empty());
    assert(all_aged(Seq::<Bullet>::empty(), dt as int) =~= Seq::<Bullet>::empty());
    assert(unexpired(Seq::<Bullet>::empty()) =~= Seq::<Bullet>::empty()) by {
        Seq::<Bullet>::empty().lemma_filter_len(|bullet: Bullet| !bullet.expired());
    }
    while i < count
        invariant
            i <= count,
            count == parent.bullets@.len(),
            parent.bullets@ == old(parent).bullets@,
            all_can_age(parent.bullets@, dt as int),
            kept@ == unexpired(all_aged(parent.bullets@.take(i as int), dt as int)),
        decreases count - i,
    {
        proof {
            lemma_lifetime_step(parent.bullets@, dt as int, i as int);
        }
        let mut bullet: Bullet = parent.bullets[i];
        bullet.lifetime.advance(dt);
        if !bullet.lifetime.finished() {
            kept.push(bullet);
        }
        i += 1;
    }
    assert(parent.bullets@.take(count as int) =~= parent.bullets@);
    parent.bullets = kept;
}

/// Tears the whole bullet collection down for a fresh round.
pub fn reset(parent: &mut BulletParent)
    ensures
        final(parent).bullets@ == Seq::<Bullet>::empty(),
{
    parent.bullets.clear();
}

/// Whether enemy `j` is the first of the enemies, in their order, whose hitbox
/// overlaps `hitbox`.
pub open spec fn struck_first(enemies: Seq<Enemy>, hitbox: CircleCollider, j: int) -> bool {
    &&& 0 <= j < enemies.len()
    &&& enemies[j].hitbox.overlaps(hitbox)
    &&& forall|k: int| 0 <= k < j ==> !(#[trigger] enemies[k]).hitbox.overlaps(hitbox)
}

/// Whether `hitbox` overlaps none of the enemies.
pub open spec fn misses(enemies: Seq<Enemy>, hitbox: CircleCollider) -> bool {
    forall|k: int| 0 <= k < enemies.len() ==> !(#[trigger] enemies[k]).hitbox.overlaps(hitbox)
}

/// Scans the enemies in order for the first one that `hitbox` overlaps.
pub fn first_struck(enemies: &Vec<Enemy>, hitbox: &CircleCollider) -> (found: Option<usize>)
    ensures
        match found {
            Some(j) => struck_first(enemies@, *hitbox, j as int),
            None => misses(enemies@, *hitbox),
        },
{
    let count: usize = enemies.len();
    let mut j: usize = 0;
    while j < count
        invariant
            j <= count,
            count == enemies@.len(),
            forall|k: int| 0 <= k < j ==> !(#[trigger] enemies@[k]).hitbox.overlaps(*hitbox),
        decreases count - j,
    {
        if is_circle_collision(&enemies[j].hitbox, hitbox) {
            return Some(j);
        }
        j += 1;
    }
    None
}

/// The bullets that hit nothing, in their old order.
pub open spec fn missing(bullets: Seq<Bullet>, enemies: Seq<Enemy>) -> Seq<Bullet> {
    bullets.filter(|bullet: Bullet| misses(enemies, bullet.hitbox))
}

/// How many of the bullets hit enemy `j`. A bullet hits the first enemy that it
/// overlaps and no other.
pub open spec fn hits_on(bullets: Seq<Bullet>, enemies: Seq<Enemy>, j: int) -> nat {
    bullets.filter(|bullet: Bullet| struck_first(enemies, bullet.hitbox, j)).len()
}

/// The enemy after `hits` hits: each takes [`BULLET_DAMAGE`] from its health.
pub open spec fn damaged(enemy: Enemy, hits: nat) -> Enemy {
    Enemy { health: (enemy.health - BULLET_DAMAGE * hits) as i64, ..enemy }
}

/// The enemies after the hits of all the bullets.
pub open spec fn all_damaged(bullets: Seq<Bullet>, enemies: Seq<Enemy>) -> Seq<Enemy> {
    Seq::new(enemies.len(), |j: int| damaged(enemies[j], hits_on(bullets, enemies, j)))
}

/// Whether the health of every enemy has room for the hits that it takes.
pub open spec fn can_take_hits(bullets: Seq<Bullet>, enemies: Seq<Enemy>) -> bool {
    forall|j: int|
        0 <= j < enemies.len() ==> (#[trigger] enemies[j]).health - BULLET_DAMAGE * hits_on(
            bullets,
            enemies,
            j,
        ) >= i64::MIN
}

/// No bullet is counted for two enemies, and none that misses is counted at all.
pub proof fn lemma_one_enemy_per_bullet(enemies: Seq<Enemy>, hitbox: CircleCollider, j: int, k: int)
    requires
        struck_first(enemies, hitbox, j),
    ensures
        struck_first(enemies, hitbox, k) ==> k == j,
        !misses(enemies, hitbox),
{
    if struck_first(enemies, hitbox, k) && k < j {
        assert(!enemies[k].hitbox.overlaps(hitbox));
    }
    if struck_first(enemies, hitbox, k) && j < k {
        assert(!enemies[j].hitbox.overlaps(hitbox));
    }
    if misses(enemies, hitbox) {
        assert(!enemies[j].hitbox.overlaps(hitbox));
    }
}

/// Damage leaves the hitboxes alone, so it changes nothing about who is hit.
proof fn lemma_damage_keeps_targets(
    bullets: Seq<Bullet>,
    enemies: Seq<Enemy>,
    hitbox: CircleCollider,
    j: int,
)
    ensures
        struck_first(all_damaged(bullets, enemies), hitbox, j) == struck_first(enemies, hitbox, j),
        misses(all_damaged(bullets, enemies), hitbox) == misses(enemies, hitbox),
{
    let hurt = all_damaged(bullets, enemies);
    assert(hurt.len() == enemies.len());
    assert forall|k: int| 0 <= k < enemies.len() implies (#[trigger] hurt[k]).hitbox
        == enemies[k].hitbox by {}
    if struck_first(enemies, hitbox, j) {
        assert forall|k: int| 0 <= k < j implies !(#[trigger] hurt[k]).hitbox.overlaps(hitbox) by {
            assert(!enemies[k].hitbox.overlaps(hitbox));
        }
    }
    if struck_first(hurt, hitbox, j) {
        assert forall|k: int| 0 <= k < j implies !(#[trigger] enemies[k]).hitbox.overlaps(
            hitbox,
        ) by {
            assert(!hurt[k].hitbox.overlaps(hitbox));
        }
    }
    if misses(enemies, hitbox) {
        assert forall|k: int| 0 <= k < hurt.len() implies !(#[trigger] hurt[k]).hitbox.overlaps(
            hitbox,
        ) by {
            assert(!enemies[k].hitbox.overlaps(hitbox));
        }
    }
    if misses(hurt, hitbox) {
        assert forall|k: int| 0 <= k < enemies.len() implies !(
        #[trigger] enemies[k]).hitbox.overlaps(hitbox) by {
            assert(!hurt[k].hitbox.overlaps(hitbox));
        }
    }
}

/// One more bullet looked at: how the misses and the hit counts of a prefix
/// grow, and that a prefix never counts more hits than the whole.
proof fn lemma_collision_step(bullets: Seq<Bullet>, enemies: Seq<Enemy>, i: int, j: int)
    requires
        0 <= i < bullets.len(),
    ensures
        missing(bullets.take(i + 1), enemies) == if misses(enemies, bullets[i].hitbox) {
            missing(bullets.take(i), enemies).push(bullets[i])
        } else {
            missing(bullets.take(i), enemies)
        },
        hits_on(bullets.take(i + 1), enemies, j) == hits_on(bullets.take(i), enemies, j)
            + if struck_first(enemies, bullets[i].hitbox, j) {
            1int
        } else {
            0int
        },
        hits_on(bullets.take(i + 1), enemies, j) <= hits_on(bullets, enemies, j),
{
    let miss = |bullet: Bullet| misses(enemies, bullet.hitbox);
    let hit = |bullet: Bullet| struck_first(enemies, bullet.hitbox, j);
    assert(bullets.take(i).push(bullets[i]) =~= bullets.take(i + 1));
    bullets.take(i).lemma_filter_push(bullets[i], miss);
    bullets.take(i).lemma_filter_push(bullets[i], hit);
    bullets.lemma_filter_take_len(hit, i + 1);
}

/// Before any bullet is looked at, nothing is kept and nothing is hit.
proof fn lemma_collision_start(bullets: Seq<Bullet>, enemies: Seq<Enemy>)
    ensures
        missing(bullets.take(0), enemies) == Seq::<Bullet>::empty(),
        all_damaged(bullets.take(0), enemies) == enemies,
{
    let none = bullets.take(0);
    assert(none =~= Seq::<Bullet>::empty());
    none.lemma_filter_len(|bullet: Bullet| misses(enemies, bullet.hitbox));
    assert(missing(none, enemies) =~= Seq::<Bullet>::empty());
    assert forall|j: int| 0 <= j < enemies.len() implies damaged(
        enemies[j],
        hits_on(none, enemies, j),
    ) == enemies[j] by {
        none.lemma_filter_len(|bullet: Bullet| struck_first(enemies, bullet.hitbox, j));
    }
    assert(all_damaged(none, enemies) =~= enemies);
}

/// Collision phase: every bullet, in order, looks for the first enemy that it
/// overlaps. A bullet that finds one is destroyed and takes [`BULLET_DAMAGE`]
/// from that enemy's health, and from no other; a bullet that finds none
/// flies on. Nothing else about the enemies changes.
pub fn bullet_collision_enemy(parent: &mut BulletParent, enemies: &mut EnemyParent)
    requires
        can_take_hits(old(parent).bullets@, old(enemies).enemies@),
    ensures
        final(parent).bullets@ == missing(old(parent).bullets@, old(enemies).enemies@),
        final(enemies).enemies@ == all_damaged(old(parent).bullets@, old(enemies).enemies@),
        final(enemies).spawn_timer == old(enemies).spawn_timer,
{
    let count: usize = parent.bullets.len();
    let mut kept: Vec<Bullet> = Vec::new();
    let mut i: usize = 0;
    proof {
        lemma_collision_start(parent.bullets@, enemies.enemies@);
    }
    while i < count
        invariant
            i <= count,
            count == parent.bullets@.len(),
            parent.bullets@ == old(parent).bullets@,
            enemies.spawn_timer == old(enemies).spawn_timer,
            can_take_hits(old(parent).bullets@, old(enemies).enemies@),
            kept@ == missing(parent.bullets@.take(i as int), old(enemies).enemies@),
            enemies.enemies@ == all_damaged(
                parent.bullets@.take(i as int),
                old(enemies).enemies@,
            ),
        decreases count - i,
    {
        let ghost fleet = old(enemies).enemies@;
        let ghost before = parent.bullets@.take(i as int);
        let ghost after = parent.bullets@.take(i + 1);
        let bullet: Bullet = parent.bullets[i];
        let found: Option<usize> = first_struck(&enemies.enemies, &bullet.hitbox);
        match found {
            Some(target) => {
                proof {
                    lemma_damage_keeps_targets(before, fleet, bullet.hitbox, target as int);
                    lemma_collision_step(parent.bullets@, fleet, i as int, target as int);
                }
                let mut enemy: Enemy = enemies.enemies[target];
                enemy.health = enemy.health - BULLET_DAMAGE;
                enemies.enemies.set(target, enemy);
                proof {
                    assert forall|j: int| 0 <= j < fleet.len() implies enemies.enemies@[j]
                        == damaged(fleet[j], hits_on(after, fleet, j)) by {
                        lemma_collision_step(parent.bullets@, fleet, i as int, j);
                        lemma_one_enemy_per_bullet(fleet, bullet.hitbox, target as int, j);
                    }
                    lemma_one_enemy_per_bullet(fleet, bullet.hitbox, target as int, 0);
                    assert(enemies.enemies@ =~= all_damaged(after, fleet));
                }
            },
            None => {
                proof {
                    lemma_damage_keeps_targets(before, fleet, bullet.hitbox, 0);
                    lemma_collision_step(parent.bullets@, fleet, i as int, 0);
                    assert forall|j: int| 0 <= j < fleet.len() implies enemies.enemies@[j]
                        == damaged(fleet[j], hits_on(after, fleet, j)) by {
                        lemma_collision_step(parent.bullets@, fleet, i as int, j);
                        if struck_first(fleet, bullet.hitbox, j) {
                            lemma_one_enemy_per_bullet(fleet, bullet.hitbox, j, j);
                        }
                    }
                    assert(enemies.enemies@ =~= all_damaged(after, fleet));
                }
                kept.push(bullet);
            },
        }
        i += 1;
    }
    assert(parent.bullets@.take(count as int) =~= parent.bullets@);
    parent.bullets = kept;
}

/// The bullets that are still in the air after the spawn, move and lifetime
/// phases of a frame, before any hit is looked for.
pub open spec fn flown(bullets: Seq<Bullet>, dt: int, input: Input, player: Player) -> Seq<Bullet> {
    unexpired(all_aged(all_moved(with_shot(bullets, input, player), dt), dt))
}

/// Whether every phase of the bullets' frame fits the number ranges.
pub open spec fn update_fits(
    bullets: Seq<Bullet>,
    enemies: Seq<Enemy>,
    dt: int,
    input: Input,
    player: Player,
) -> bool {
    &&& all_can_move(with_shot(bullets, input, player), dt)
    &&& all_can_age(all_moved(with_shot(bullets, input, player), dt), dt)
    &&& can_take_hits(flown(bullets, dt, input, player), enemies)
}

/// The bullets' whole frame, in its fixed order: spawn, move, lifetime, and
/// then collision against the enemies as they stand.
pub fn update_bullets(
    parent: &mut BulletParent,
    enemies: &mut EnemyParent,
    dt: u32,
    input: &Input,
    player: &Player,
)
    requires
        update_fits(old(parent).bullets@, old(enemies).enemies@, dt as int, *input, *player),
    ensures
        final(parent).bullets@ == missing(
            flown(old(parent).bullets@, dt as int, *input, *player),
            old(enemies).enemies@,
        ),
        final(enemies).enemies@ == all_damaged(
            flown(old(parent).bullets@, dt as int, *input, *player),
            old(enemies).enemies@,
        ),
        final(enemies).spawn_timer == old(enemies).spawn_timer,
{
    spawn_bullet(parent, input, player);
    bullet_move(parent, dt);
    bullet_lifetime(parent, dt);
    bullet_collision_enemy(parent, enemies);
}

/// No bullet in the air is faster than this.
pub const BULLET_SPEED_LIMIT: u64 = 420_000_000;

impl Bullet {
    /// What holds of every bullet that was fired from the ship's height and
    /// has flown frame by frame since: its lifetime is a two-second timer that
    /// has not run out, its speed is the gain of its time in the air on top
    /// of the starting speed, it has climbed no further than the top speed
    /// allows, and its hitbox sits on it.
    pub open spec fn in_flight(self) -> bool {
        &&& self.lifetime.mode == TimerMode::Once
        &&& self.lifetime.target == 2_000_000
        &&& self.lifetime.elapsed < 2_000_000
        &&& !self.lifetime.finished
        &&& self.speed == BULLET_SPEED + BULLET_ACCELERATION * self.lifetime.elapsed
        &&& self.pos.y <= PLAYER_START_Y + 420 * self.lifetime.elapsed
        &&& self.hitbox == (CircleCollider { pos: self.pos, radius: BULLET_RADIUS })
    }
}

/// Whether every bullet is in flight.
pub open spec fn all_in_flight(bullets: Seq<Bullet>) -> bool {
    forall|i: int| 0 <= i < bullets.len() ==> (#[trigger] bullets[i]).in_flight()
}

/// A bullet fired from the ship's height or below is in flight.
pub proof fn lemma_fired_in_flight(pos: Point)
    requires
        pos.y <= PLAYER_START_Y,
    ensures
        Bullet::fired_from(pos).in_flight(),
{
}

/// A bullet in flight can always make its move and have its lifetime
/// advanced, whatever the frame time, and if its lifetime is then not over it
/// is still in flight.
pub proof fn lemma_flight_is_kept(bullet: Bullet, dt: u32)
    requires
        bullet.in_flight(),
    ensures
        bullet.can_move(dt as int),
        bullet.moved(dt as int).lifetime.can_advance(dt as int),
        !bullet.moved(dt as int).aged(dt as int).expired() ==> bullet.moved(dt as int).aged(
            dt as int,
        ).in_flight(),
{
    let speed = bullet.speed_after(dt as int);
    lemma_travel_bounds(speed, dt as int, 43_369_672_950);
    assert(travel_spec(43_369_672_950, dt as int) <= 186_271_327_124_961) by {
        let a: int = 43_369_672_950int * dt;
        assert(a / 1_000_000 <= 186_271_327_124_961) by (nonlinear_arith)
            requires
                a <= 43_369_672_950int * 0xffff_ffffint,
        ;
    }
    if !bullet.moved(dt as int).aged(dt as int).expired() {
        lemma_travel_bounds(speed, dt as int, BULLET_SPEED_LIMIT as int);
        assert(travel_spec(BULLET_SPEED_LIMIT as int, dt as int) == 420 * dt) by {
            let b: int = 420 * dt;
            assert((b * 1_000_000) / 1_000_000 == b) by (nonlinear_arith);
        }
    }
}

/// The bullets of a frame that starts with every bullet in flight and the ship
/// at its height: every phase fits, at most one bullet is added, and what is
/// left in the air, hit or not, is in flight.
pub proof fn lemma_flown_in_flight(
    bullets: Seq<Bullet>,
    enemies: Seq<Enemy>,
    dt: u32,
    input: Input,
    player: Player,
)
    requires
        all_in_flight(bullets),
        player.pos.y <= PLAYER_START_Y,
    ensures
        all_can_move(with_shot(bullets, input, player), dt as int),
        all_can_age(all_moved(with_shot(bullets, input, player), dt as int), dt as int),
        flown(bullets, dt as int, input, player).len() <= bullets.len() + 1,
        all_in_flight(flown(bullets, dt as int, input, player)),
        all_in_flight(missing(flown(bullets, dt as int, input, player), enemies)),
{
    let shot = with_shot(bullets, input, player);
    let aged = all_aged(all_moved(shot, dt as int), dt as int);
    lemma_fired_in_flight(player.pos);
    assert forall|i: int| 0 <= i < shot.len() implies (#[trigger] shot[i]).in_flight() by {
        if i < bullets.len() {
            assert(bullets[i].in_flight());
        }
    }
    assert forall|i: int| 0 <= i < shot.len() implies (#[trigger] shot[i]).can_move(dt as int) by {
        lemma_flight_is_kept(shot[i], dt);
    }
    assert forall|i: int| 0 <= i < shot.len() implies (#[trigger] all_moved(
        shot,
        dt as int,
    )[i]).lifetime.can_advance(dt as int) by {
        lemma_flight_is_kept(shot[i], dt);
    }
    let sound = |bullet: Bullet| bullet.expired() || bullet.in_flight();
    assert forall|i: int| 0 <= i < aged.len() implies sound(#[trigger] aged[i]) by {
        lemma_flight_is_kept(shot[i], dt);
    }
    lemma_filter_keeps(aged, |bullet: Bullet| !bullet.expired(), sound);
    let airborne = flown(bullets, dt as int, input, player);
    assert(all_in_flight(airborne));
    lemma_filter_keeps(
        airborne,
        |bullet: Bullet| misses(enemies, bullet.hitbox),
        |bullet: Bullet| bullet.in_flight(),
    );
}

/// An enemy is hit by no more bullets than there are, and hits change nothing
/// about an enemy but its health.
pub proof fn lemma_hits_are_bounded(bullets: Seq<Bullet>, enemies: Seq<Enemy>, j: int)
    requires
        0 <= j < enemies.len(),
    ensures
        hits_on(bullets, enemies, j) <= bullets.len(),
        all_damaged(bullets, enemies).len() == enemies.len(),
        all_damaged(bullets, enemies)[j] == damaged(enemies[j], hits_on(bullets, enemies, j)),
{
    bullets.lemma_filter_len(|bullet: Bullet| struck_first(enemies, bullet.hitbox, j));
}

impl Bullet {
    /// Tells whether the bullet is in flight.
    pub fn is_in_flight(&self) -> (ok: bool)
        ensures
            ok == self.in_flight(),
    {
        let once: bool = match self.lifetime.mode {
            TimerMode::Once => true,
            TimerMode::Repeating => false,
        };
        if !once || self.lifetime.target != 2_000_000 || self.lifetime.elapsed >= 2_000_000
            || self.lifetime.finished {
            return false;
        }
        let elapsed: u64 = self.lifetime.elapsed;
        self.speed == BULLET_SPEED + BULLET_ACCELERATION * elapsed && self.pos.y <= PLAYER_START_Y
            + 420 * (elapsed as i64) && self.hitbox.pos == self.pos && self.hitbox.radius
            == BULLET_RADIUS
    }
}

/// Tells whether every bullet is in flight.
pub fn are_in_flight(parent: &BulletParent) -> (ok: bool)
    ensures
        ok == all_in_flight(parent.bullets@),
{
    let count: usize = parent.bullets.len();
    let mut i: usize = 0;
    while i < count
        invariant
            i <= count,
            count == parent.bullets@.len(),
            forall|j: int| 0 <= j < i ==> (#[trigger] parent.bullets@[j]).in_flight(),
        decreases count - i,
    {
        if !parent.bullets[i].is_in_flight() {
            return false;
        }
        i += 1;
    }
    true
}

/// A bullet lives for two seconds: once its lifetime has been fed some frame
/// times, it is over exactly if they add up to two seconds or more. So the
/// bullet goes on the frame that completes the two seconds, not before.
pub proof fn lemma_bullet_expires_at_two_seconds(pos: Point, dts: Seq<u32>)
    requires
        dts.len() > 0,
    ensures
        Bullet::fired_from(pos).lifetime.advanced_through(dts).finished <==> total_time(dts)
            >= 2_000_000,
{
    lemma_once_timer_fires_at_target(2_000_000, dts);
}

/// Hits decide who survives the frame: after the collision phase an enemy is
/// alive exactly if its health was more than the damage of the hits on it.
pub proof fn lemma_hits_decide_survival(bullets: Seq<Bullet>, enemies: Seq<Enemy>, j: int)
    requires
        0 <= j < enemies.len(),
        can_take_hits(bullets, enemies),
    ensures
        all_damaged(bullets, enemies)[j].is_alive() <==> enemies[j].health > BULLET_DAMAGE
            * hits_on(bullets, enemies, j),
{
    lemma_hits_are_bounded(bullets, enemies, j);
}

/// Enemies whose health is used up by the hits on them are all destroyed by
/// the cleanup that follows, and every one of them counts as dead, so that
/// the score grows by the reward for each.
pub proof fn lemma_enough_hits_destroy_all(bullets: Seq<Bullet>, enemies: Seq<Enemy>)
    requires
        can_take_hits(bullets, enemies),
        forall|j: int|
            0 <= j < enemies.len() ==> (#[trigger] enemies[j]).health <= BULLET_DAMAGE * hits_on(
                bullets,
                enemies,
                j,
            ),
    ensures
        living(all_damaged(bullets, enemies)) == Seq::<Enemy>::empty(),
        dead_count(all_damaged(bullets, enemies)) == enemies.len(),
{
    let hurt = all_damaged(bullets, enemies);
    assert forall|j: int| 0 <= j < hurt.len() implies !(#[trigger] hurt[j]).is_alive() by {
        lemma_hits_decide_survival(bullets, enemies, j);
        assert(enemies[j].health <= BULLET_DAMAGE * hits_on(bullets, enemies, j));
    }
    lemma_living_and_dead(hurt);
    if living(hurt).len() > 0 {
        let survivor = living(hurt)[0];
        assert(survivor.is_alive());
        assert(living(hurt).contains(survivor));
        hurt.lemma_filter_contains_rev(|enemy: Enemy| enemy.is_alive(), survivor);
        let at = choose|at: int| 0 <= at < hurt.len() && hurt[at] == survivor;
        assert(!hurt[at].is_alive());
    }
    assert(living(hurt) =~= Seq::<Enemy>::empty());
}

} // verus!
