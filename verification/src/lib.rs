//! A deterministic, fixed-timestep battle simulator for a space-combat
//! game: target acquisition over a uniform spatial hash, weapon fire
//! with range falloff and armor effectiveness, aggregated damage against
//! shields and hull, shield regeneration, and stalemate detection.
//!
//! Every fractional quantity of the host's schema (hit points, ranges,
//! seconds) is held as a scaled integer: a thousand steps per whole
//! unit. The host boundary converts at ingress and egress, and rejects
//! records that fail the schema check.

use vstd::prelude::*;

pub mod battle_unit;
pub mod fixed;
pub mod movement;
pub mod simulator;
pub mod spatial_grid;
pub mod tags;
pub mod targeting;
pub mod weapons;

verus! {

/// Number of fixed-point fractional steps per whole world unit, hit point,
/// second, or shot: every fractional quantity of the simulation is stored
/// as an integer count of thousandths.
pub const SCALE: i64 = 1000;

/// Upper bound on every scaled stat value (hit points, shields, ranges,
/// rates, cooldowns) accepted at the ingress boundary.
pub const STAT_LIMIT: i64 = 1_000_000_000_000;

/// The world is a bounded cube: scaled coordinates stay within this bound
/// on each axis.
pub const COORD_LIMIT: i64 = 1_000_000_000_000;

/// Upper bound on scaled speeds and velocity components.
pub const SPEED_LIMIT: i64 = 1_000_000_000;

/// Upper bound on the magnitude of absolute clock values (milliseconds).
pub const TIME_LIMIT: i64 = 1_000_000_000_000_000;

/// Upper bound on the real-time delta of one tick (milliseconds).
pub const DT_LIMIT: i64 = 1_000_000;

} // verus!
