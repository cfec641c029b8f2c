use space_invaders::timer::{Timer, TimerMode};

#[test]
fn new_timer_has_counted_nothing() {
    let t = Timer::new(2_000_000, TimerMode::Once);
    assert_eq!(t, Timer { elapsed: 0, target: 2_000_000, mode: TimerMode::Once, finished: false });
    assert!(!t.finished());
}

#[test]
fn from_seconds_counts_in_microseconds() {
    let t = Timer::from_seconds(2, TimerMode::Repeating);
    assert_eq!(t.target, 2_000_000);
    assert_eq!(t.mode, TimerMode::Repeating);
    assert_eq!(t.elapsed, 0);
    let long = Timer::from_seconds(u32::MAX, TimerMode::Once);
    assert_eq!(long.target, 4_294_967_295_000_000);
}

#[test]
fn repeating_timer_cadence() {
    // Seven steps of 0.7 s against a 2 s period: 4.9 s in all.
    let mut t = Timer::from_seconds(2, TimerMode::Repeating);
    let mut firings: u32 = 0;
    let mut fired_on: Vec<u32> = Vec::new();
    for frame in 1..=7u32 {
        t.advance(700_000);
        if t.finished() {
            firings += 1;
            fired_on.push(frame);
        }
    }
    assert_eq!(firings, 2);
    assert_eq!(fired_on, vec![3, 6]);
    assert_eq!(t.elapsed, 900_000);
    assert!(!t.finished());
}

#[test]
fn repeating_timer_carries_overshoot() {
    let mut t = Timer::from_seconds(2, TimerMode::Repeating);
    t.advance(1_999_999);
    assert!(!t.finished());
    assert_eq!(t.elapsed, 1_999_999);
    t.advance(1);
    assert!(t.finished());
    assert_eq!(t.elapsed, 0);
    t.advance(2_500_000);
    assert!(t.finished());
    assert_eq!(t.elapsed, 500_000);
    t.advance(100);
    assert!(!t.finished());
    assert_eq!(t.elapsed, 500_100);
}

#[test]
fn repeating_timer_gives_up_one_period_per_advance() {
    let mut t = Timer::from_seconds(2, TimerMode::Repeating);
    t.advance(5_000_000);
    assert!(t.finished());
    assert_eq!(t.elapsed, 3_000_000);
    t.advance(0);
    assert!(t.finished());
    assert_eq!(t.elapsed, 1_000_000);
    t.advance(0);
    assert!(!t.finished());
    assert_eq!(t.elapsed, 1_000_000);
}

#[test]
fn once_timer_fires_at_exactly_its_target() {
    let mut t = Timer::from_seconds(2, TimerMode::Once);
    t.advance(1_000_000);
    assert!(!t.finished());
    t.advance(999_999);
    assert!(!t.finished());
    assert_eq!(t.elapsed, 1_999_999);
    t.advance(1);
    assert!(t.finished());
    assert_eq!(t.elapsed, 2_000_000);
}

#[test]
fn once_timer_stays_finished_and_stops_counting() {
    let mut t = Timer::from_seconds(2, TimerMode::Once);
    t.advance(u32::MAX);
    assert!(t.finished());
    assert_eq!(t.elapsed, 2_000_000);
    t.advance(0);
    assert!(t.finished());
    t.advance(u32::MAX);
    assert!(t.finished());
    assert_eq!(t.elapsed, 2_000_000);
}

#[test]
fn once_timer_near_the_end_of_the_counter() {
    let mut t = Timer::new(u64::MAX, TimerMode::Once);
    t.elapsed = u64::MAX - 5;
    t.advance(4);
    assert!(!t.finished());
    assert_eq!(t.elapsed, u64::MAX - 1);
    t.advance(u32::MAX);
    assert!(t.finished());
    assert_eq!(t.elapsed, u64::MAX);
}

#[test]
fn timer_with_zero_target_fires_on_first_advance() {
    let mut once = Timer::new(0, TimerMode::Once);
    assert!(!once.finished());
    once.advance(0);
    assert!(once.finished());
    let mut repeating = Timer::new(0, TimerMode::Repeating);
    repeating.advance(7);
    assert!(repeating.finished());
    assert_eq!(repeating.elapsed, 7);
}
