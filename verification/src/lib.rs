//! A deterministic, fixed-point simulation core for a small arcade shooter.
//!
//! A player ship fires bullets upward at enemies that sweep from side to side
//! and step down on every bounce. Hits wear an enemy's health down, a dead
//! enemy awards score, and an enemy that gets below the lower boundary ends
//! the round.
//!
//! Every quantity is an integer. Positions, radii and size factors are counted
//! in millionths of a world unit, time in microseconds, and speeds in position
//! steps per second; see [`units`]. All rules are stated as `spec` functions
//! and the executable functions are proved against them. The one thing taken
//! on trust is the draw of a random number in [`random`].

pub mod units;
pub mod seq_facts;
pub mod collision_shape;
pub mod timer;
pub mod gamestate;
pub mod random;
pub mod enemy;
pub mod player;
pub mod bullet;
pub mod game;
