use rand::rngs::StdRng;
use rand::SeedableRng;
use space_invaders::bullet::{bullet_collision_enemy, spawn_bullet_parent, Bullet};
use space_invaders::collision_shape::{CircleCollider, Point};
use space_invaders::enemy::{
    end_game, march_and_check, remove_dead_enemies, reset, spawn_enemy, spawn_enemy_parent,
    spawn_enemy_with, update_enemies, update_enemies_with, update_enemy_pos, Enemy, EnemyParent,
    KILL_REWARD, LOWER_BOUNDARY,
};
use space_invaders::gamestate::{GameState, Score};
use space_invaders::timer::{Timer, TimerMode};

const UNIT: i64 = 1_000_000;

fn enemy_at(x: i64, y: i64, health: i64, heading_right: bool) -> Enemy {
    let pos = Point { x, y };
    Enemy {
        pos,
        size: 1_200_000,
        health,
        speed: 776_000_000,
        movement_direction: heading_right,
        hitbox: CircleCollider { pos, radius: 84_000_000 },
    }
}

fn enemies_of(list: Vec<Enemy>) -> EnemyParent {
    let mut parent = spawn_enemy_parent();
    parent.enemies = list;
    parent
}

#[test]
fn enemy_parent_starts_empty_with_a_two_second_repeating_timer() {
    let parent = spawn_enemy_parent();
    assert!(parent.enemies.is_empty());
    assert_eq!(
        parent.spawn_timer,
        Timer { elapsed: 0, target: 2_000_000, mode: TimerMode::Repeating, finished: false }
    );
}

#[test]
fn spawn_formulas_for_every_size_step() {
    let expected: Vec<(u32, u32, i64, u64, u32)> = vec![
        (1, 1_200_000, 72, 776_000_000, 84_000_000),
        (2, 1_400_000, 98, 704_000_000, 98_000_000),
        (3, 1_600_000, 128, 584_000_000, 112_000_000),
        (4, 1_800_000, 162, 416_000_000, 126_000_000),
        (5, 2_000_000, 200, 200_000_000, 140_000_000),
    ];
    for (roll, size, health, speed, radius) in expected {
        let e = Enemy::spawn(roll, 0);
        assert_eq!(e.size, size);
        assert_eq!(e.health, health);
        assert_eq!(e.speed, speed);
        assert_eq!(e.hitbox.radius, radius);
        assert_eq!(e.pos, Point { x: 0, y: 180 * UNIT });
        assert_eq!(e.hitbox.pos, e.pos);
        assert!(!e.movement_direction);
        assert!(e.is_in_lane());
        // The same numbers from the formulas in real arithmetic.
        let s: f64 = roll as f64 / 5.0 + 1.0;
        assert!((50.0 * s * s - health as f64).abs() < 1e-9);
        let basis: f64 = 1.0 - (1.0 - s) * (1.0 - s);
        assert!((200.0 * (basis * 3.0 + 1.0) - speed as f64 / 1e6).abs() < 1e-9);
        assert!((70.0 * s - radius as f64 / 1e6).abs() < 1e-9);
    }
}

#[test]
fn heading_roll_of_one_heads_right() {
    assert!(Enemy::spawn(3, 1).movement_direction);
    assert!(!Enemy::spawn(3, 0).movement_direction);
}

#[test]
fn spawn_waits_for_the_timer() {
    let mut parent = spawn_enemy_parent();
    spawn_enemy_with(&mut parent, 1_999_999, 1, 1);
    assert!(parent.enemies.is_empty());
    assert_eq!(parent.spawn_timer.elapsed, 1_999_999);
    spawn_enemy_with(&mut parent, 1, 1, 1);
    assert_eq!(parent.enemies, vec![Enemy::spawn(1, 1)]);
    assert_eq!(parent.spawn_timer.elapsed, 0);
    spawn_enemy_with(&mut parent, 500_000, 5, 0);
    assert_eq!(parent.enemies.len(), 1);
}

#[test]
fn spawn_adds_the_new_enemy_at_the_end() {
    let mut parent = enemies_of(vec![enemy_at(1, 2, 3, true)]);
    spawn_enemy_with(&mut parent, 2_000_000, 5, 0);
    assert_eq!(parent.enemies, vec![enemy_at(1, 2, 3, true), Enemy::spawn(5, 0)]);
}

#[test]
fn spawn_cadence_follows_the_carried_time() {
    let mut parent = spawn_enemy_parent();
    for _ in 0..7 {
        spawn_enemy_with(&mut parent, 700_000, 2, 1);
    }
    assert_eq!(parent.enemies.len(), 2);
    assert_eq!(parent.spawn_timer.elapsed, 900_000);
}

#[test]
fn random_spawn_is_one_of_the_valid_enemies() {
    let mut sizes_seen = [false; 5];
    let mut headings_seen = [false; 2];
    for seed in 0..64u64 {
        let mut rng = StdRng::seed_from_u64(seed);
        let mut parent = spawn_enemy_parent();
        spawn_enemy(&mut parent, 1_000_000, &mut rng);
        assert!(parent.enemies.is_empty());
        spawn_enemy(&mut parent, 1_000_000, &mut rng);
        assert_eq!(parent.enemies.len(), 1);
        let e = parent.enemies[0];
        let roll: u32 = (e.size - 1_000_000) / 200_000;
        assert!(1 <= roll && roll <= 5);
        let heading: u32 = if e.movement_direction { 1 } else { 0 };
        assert_eq!(e, Enemy::spawn(roll, heading));
        sizes_seen[(roll - 1) as usize] = true;
        headings_seen[heading as usize] = true;
    }
    assert_eq!(sizes_seen, [true; 5]);
    assert_eq!(headings_seen, [true; 2]);
}

#[test]
fn random_spawn_repeats_for_the_same_seed() {
    let mut first = spawn_enemy_parent();
    let mut second = spawn_enemy_parent();
    let mut rng_a = StdRng::seed_from_u64(2024);
    let mut rng_b = StdRng::seed_from_u64(2024);
    for _ in 0..20 {
        spawn_enemy(&mut first, 2_000_000, &mut rng_a);
        spawn_enemy(&mut second, 2_000_000, &mut rng_b);
    }
    assert_eq!(first.enemies.len(), 20);
    assert_eq!(first.enemies, second.enemies);
}

#[test]
fn enemy_sweeps_sideways() {
    let mut parent = enemies_of(vec![enemy_at(0, 180 * UNIT, 72, true), enemy_at(0, 180 * UNIT, 72, false)]);
    update_enemy_pos(&mut parent, 16_667);
    assert_eq!(parent.enemies[0].pos, Point { x: 12_933_592, y: 180 * UNIT });
    assert_eq!(parent.enemies[0].hitbox.pos, Point { x: 12_933_592, y: 180 * UNIT });
    assert!(parent.enemies[0].movement_direction);
    assert_eq!(parent.enemies[1].pos, Point { x: -12_933_592, y: 180 * UNIT });
    assert!(!parent.enemies[1].movement_direction);
    assert_eq!(parent.enemies[0].health, 72);
    assert_eq!(parent.enemies[0].hitbox.radius, 84_000_000);
}

#[test]
fn enemy_turns_and_steps_down_past_the_right_wall() {
    let mut parent = enemies_of(vec![enemy_at(320 * UNIT - 776, 180 * UNIT, 72, true)]);
    update_enemy_pos(&mut parent, 1);
    // Exactly at the wall: no bounce yet.
    assert_eq!(parent.enemies[0].pos, Point { x: 320 * UNIT, y: 180 * UNIT });
    assert!(parent.enemies[0].movement_direction);
    update_enemy_pos(&mut parent, 1);
    assert_eq!(parent.enemies[0].pos, Point { x: 320 * UNIT + 776, y: 130 * UNIT });
    assert_eq!(parent.enemies[0].hitbox.pos, Point { x: 320 * UNIT + 776, y: 130 * UNIT });
    assert!(!parent.enemies[0].movement_direction);
    update_enemy_pos(&mut parent, 1);
    assert_eq!(parent.enemies[0].pos, Point { x: 320 * UNIT, y: 130 * UNIT });
    assert!(!parent.enemies[0].movement_direction);
}

#[test]
fn enemy_turns_and_steps_down_past_the_left_wall() {
    let mut parent = enemies_of(vec![enemy_at(-320 * UNIT, 180 * UNIT, 72, false)]);
    update_enemy_pos(&mut parent, 1_000);
    assert_eq!(parent.enemies[0].pos, Point { x: -320 * UNIT - 776_000, y: 130 * UNIT });
    assert!(parent.enemies[0].movement_direction);
    update_enemy_pos(&mut parent, 1_000);
    assert_eq!(parent.enemies[0].pos, Point { x: -320 * UNIT, y: 130 * UNIT });
    assert!(parent.enemies[0].movement_direction);
}

#[test]
fn enemy_far_past_a_wall_steps_down_every_frame_it_stays_there() {
    let mut parent = enemies_of(vec![enemy_at(0, 180 * UNIT, 72, true)]);
    update_enemy_pos(&mut parent, 1_000_000);
    assert_eq!(parent.enemies[0].pos, Point { x: 776 * UNIT, y: 130 * UNIT });
    assert!(!parent.enemies[0].movement_direction);
    update_enemy_pos(&mut parent, 500_000);
    assert_eq!(parent.enemies[0].pos, Point { x: 388 * UNIT, y: 80 * UNIT });
    assert!(!parent.enemies[0].movement_direction);
}

#[test]
fn score_accumulation() {
    // Three enemies of health 50: each hit takes 10, and the fifth one kills.
    let mut enemies = enemies_of(vec![
        enemy_at(-200 * UNIT, 0, 50, true),
        enemy_at(0, 0, 50, true),
        enemy_at(200 * UNIT, 0, 50, true),
    ]);
    let mut score = Score { current: 40, best: 700 };
    for hit in 1..=5i64 {
        let mut bullets = spawn_bullet_parent();
        for x in [-200 * UNIT, 0, 200 * UNIT] {
            bullets.bullets.push(Bullet::fire(Point { x, y: 0 }));
        }
        bullet_collision_enemy(&mut bullets, &mut enemies);
        assert!(bullets.bullets.is_empty());
        remove_dead_enemies(&mut enemies, &mut score);
        if hit < 5 {
            assert_eq!(enemies.enemies.len(), 3);
            assert_eq!(score.current, 40);
            for e in enemies.enemies.iter() {
                assert_eq!(e.health, 50 - 10 * hit);
            }
        }
    }
    assert!(enemies.enemies.is_empty());
    assert_eq!(score.current, 340);
    assert_eq!(score.best, 700);
    assert_eq!(KILL_REWARD, 100);
}

#[test]
fn three_hits_leave_an_enemy_of_health_fifty_alive() {
    let mut enemies = enemies_of(vec![enemy_at(0, 0, 50, true)]);
    let mut score = Score::new();
    let mut bullets = spawn_bullet_parent();
    for _ in 0..3 {
        bullets.bullets.push(Bullet::fire(Point { x: 0, y: 0 }));
    }
    bullet_collision_enemy(&mut bullets, &mut enemies);
    remove_dead_enemies(&mut enemies, &mut score);
    assert_eq!(enemies.enemies.len(), 1);
    assert_eq!(enemies.enemies[0].health, 20);
    assert_eq!(score, Score { current: 0, best: 0 });
}

#[test]
fn cleanup_removes_health_zero_and_below_and_keeps_order() {
    let mut enemies = enemies_of(vec![
        enemy_at(1, 0, 1, true),
        enemy_at(2, 0, 0, true),
        enemy_at(3, 0, 72, true),
        enemy_at(4, 0, -8, true),
        enemy_at(5, 0, i64::MIN, true),
        enemy_at(6, 0, i64::MAX, true),
    ]);
    let timer = enemies.spawn_timer;
    let mut score = Score { current: u64::MAX - 300, best: 5 };
    remove_dead_enemies(&mut enemies, &mut score);
    let xs: Vec<i64> = enemies.enemies.iter().map(|e| e.pos.x).collect();
    assert_eq!(xs, vec![1, 3, 6]);
    assert_eq!(score, Score { current: u64::MAX, best: 5 });
    assert_eq!(enemies.spawn_timer, timer);
    remove_dead_enemies(&mut enemies, &mut score);
    assert_eq!(enemies.enemies.len(), 3);
    assert_eq!(score.current, u64::MAX);
}

#[test]
fn round_end_determinism() {
    // One enemy at y = -151 ends the round, wherever the others are.
    let culprit = enemy_at(10 * UNIT, -151 * UNIT, 72, true);
    let others: Vec<Vec<Enemy>> = vec![
        vec![],
        vec![enemy_at(0, 180 * UNIT, 72, true)],
        vec![enemy_at(-300 * UNIT, -150 * UNIT, 200, false), enemy_at(300 * UNIT, 0, 98, true)],
    ];
    for rest in others {
        for place in 0..=rest.len() {
            let mut list = rest.clone();
            list.insert(place, culprit);
            let mut parent = enemies_of(list);
            let mut score = Score::new();
            let next = update_enemies_with(&mut parent, &mut score, GameState::Playing, 16_667, 1, 1);
            assert_eq!(next, GameState::GameOver);
            assert_eq!(score.current, 0);
        }
    }
}

#[test]
fn round_end_check_is_strict_at_the_boundary() {
    assert_eq!(LOWER_BOUNDARY, -150_000_000);
    let at = enemies_of(vec![enemy_at(0, -150 * UNIT, 72, true)]);
    assert_eq!(end_game(&at, GameState::Playing), GameState::Playing);
    let below = enemies_of(vec![enemy_at(0, 0, 72, true), enemy_at(0, -150 * UNIT - 1, 72, true)]);
    assert_eq!(end_game(&below, GameState::Playing), GameState::GameOver);
    let none = spawn_enemy_parent();
    assert_eq!(end_game(&none, GameState::Playing), GameState::Playing);
    assert_eq!(end_game(&none, GameState::GameOver), GameState::GameOver);
}

#[test]
fn killed_enemy_below_the_boundary_does_not_end_the_round() {
    let mut parent = enemies_of(vec![enemy_at(0, -151 * UNIT, 0, true), enemy_at(0, 0, 72, true)]);
    let mut score = Score::new();
    let next = march_and_check(&mut parent, &mut score, GameState::Playing, 16_667);
    assert_eq!(next, GameState::Playing);
    assert_eq!(score.current, 100);
    assert_eq!(parent.enemies.len(), 1);
}

#[test]
fn step_down_across_the_boundary_ends_the_round() {
    let mut parent = enemies_of(vec![enemy_at(320 * UNIT, -120 * UNIT, 72, true)]);
    let mut score = Score::new();
    let next = march_and_check(&mut parent, &mut score, GameState::Playing, 16_667);
    assert_eq!(parent.enemies[0].pos.y, -170 * UNIT);
    assert_eq!(next, GameState::GameOver);
}

#[test]
fn enemies_frame_with_random_rolls() {
    let mut rng = StdRng::seed_from_u64(11);
    let mut parent = spawn_enemy_parent();
    let mut score = Score::new();
    let next = update_enemies(&mut parent, &mut score, GameState::Playing, 2_000_000, &mut rng);
    assert_eq!(next, GameState::Playing);
    assert_eq!(parent.enemies.len(), 1);
    let e = parent.enemies[0];
    let roll: u32 = (e.size - 1_000_000) / 200_000;
    // Two seconds take every enemy past a wall, so where it is tells its heading.
    let heading: u32 = if e.pos.x > 0 { 1 } else { 0 };
    let mut expected = enemies_of(vec![Enemy::spawn(roll, heading)]);
    update_enemy_pos(&mut expected, 2_000_000);
    assert_eq!(parent.enemies, expected.enemies);
    assert_eq!(score, Score::new());
}

#[test]
fn reset_clears_all_enemies_and_lets_the_timer_run_on() {
    let mut parent = enemies_of(vec![enemy_at(1, 1, 1, true), enemy_at(2, 2, 2, false)]);
    parent.spawn_timer.elapsed = 1_234_567;
    reset(&mut parent);
    assert!(parent.enemies.is_empty());
    assert_eq!(parent.spawn_timer.elapsed, 1_234_567);
}
