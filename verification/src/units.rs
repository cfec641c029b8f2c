//! Fixed-point units shared by the whole simulation.

use vstd::prelude::*;

verus! {

/// Resolution of the fixed-point grid: one world unit is `UNIT` position
/// steps, one second is `UNIT` time steps (microseconds), and a factor of 1.0
/// is written `UNIT`.
pub const UNIT: u64 = 1_000_000;

/// Distance in position steps covered during `dt` microseconds at `speed`
/// position steps per second, rounded down to the grid.
pub open spec fn travel_spec(speed: int, dt: int) -> int {
    (speed * dt) / (UNIT as int)
}

/// The distance never exceeds `speed * dt`, and grows with the speed.
pub proof fn lemma_travel_bounds(speed: int, dt: int, cap: int)
    requires
        0 <= speed <= cap,
        0 <= dt,
    ensures
        0 <= travel_spec(speed, dt) <= travel_spec(cap, dt),
        travel_spec(cap, dt) <= cap * dt,
{
    assert(0 <= speed * dt <= cap * dt) by (nonlinear_arith)
        requires
            0 <= speed <= cap,
            0 <= dt,
    ;
    let a: int = speed * dt;
    let b: int = cap * dt;
    assert(0 <= a / 1_000_000 <= b / 1_000_000 && b / 1_000_000 <= b) by (nonlinear_arith)
        requires
            0 <= a <= b,
    ;
}

/// Computes [`travel_spec`] without overflow for every speed and frame time.
pub fn travel(speed: u64, dt: u32) -> (d: u128)
    ensures
        d == travel_spec(speed as int, dt as int),
{
    let wide_speed: u128 = speed as u128;
    let wide_dt: u128 = dt as u128;
    assert(wide_speed * wide_dt <= 0xffff_ffff_ffff_ffff * 0xffff_ffff) by (nonlinear_arith)
        requires
            wide_speed <= 0xffff_ffff_ffff_ffff,
            wide_dt <= 0xffff_ffff,
    ;
    wide_speed * wide_dt / (UNIT as u128)
}

} // verus!
