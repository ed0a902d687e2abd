//! Decision engine for a turn-based lane-survival game.
//!
//! A player occupies one lane of a circular track of `WIDTH` lanes; enemies
//! spawn at the top of lanes and descend at a fixed rate, reaching the bottom
//! `HEIGHT - 1` turns after they appear.  Every turn the player may shift one
//! lane or stay, and automatically attacks the enemy in its lane.  The engine
//! simulates candidate futures with a beam search over incrementally hashed
//! game states, and sizes the beam each turn with a Kalman-filter width
//! controller so that a wall-clock budget is never overrun.

use vstd::prelude::*;

pub mod beam;
pub mod enemy;
pub mod engine;
pub mod hasher;
pub mod minmax;
pub mod rng;
pub mod state;
pub mod tracker;
pub mod width;
pub mod zobrist;

verus! {

/// Number of lanes in the circular track.
pub const WIDTH: usize = 25;

/// Track height: an enemy spawned at turn `t` reaches the bottom at turn
/// `t + HEIGHT - 1` and silently expires at turn `t + HEIGHT`.
pub const HEIGHT: usize = 60;

/// Total number of real turns in a run.
pub const MAX_TURN: usize = 1000;

/// Exclusive upper bound on an enemy's initial hit points.
pub const MAX_HP: usize = 500;

/// Lane the player starts in.
pub const CENTER: usize = 12;

/// Number of simulated turns explored per search invocation.
pub const DEFAULT_SIMULATION_LEN: usize = 30;

/// Number of real moves committed from a single search invocation.
pub const TURN_STRIDE: usize = 2;

/// Default (standard) beam width.
pub const BEAM_WIDTH: usize = 15;

} // verus!
