//! Simulation core of a raid server: the player roster and its parties, and the
//! timed area-of-effect mechanics that run against them at a fixed tick rate.
//!
//! Positions are held as fixed-point integers (thousandths of a world unit) and
//! times as microseconds, so that every rule of the simulation is exact.

use vstd::prelude::*;

pub mod affects;
pub mod components;
pub mod geometry;
pub mod laws;
pub mod mechanics;
pub mod messages;
pub mod metrics;
pub mod notify;
pub mod query;
mod random;
pub mod world;

verus! {

} // verus!
