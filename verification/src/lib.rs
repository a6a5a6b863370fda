//! Core of an evolutionary trainer for neural-network-driven vehicles on a
//! closed-loop track: track geometry, sensor data shapes, genome encoding,
//! the feed-forward control network, fitness scoring and the generational
//! population lifecycle.
//!
//! Rendering, physics and ray casting are external collaborators: they feed
//! the core per-tick sensor readings and receive clamped control outputs and
//! derived track geometry. Every scalar quantity in this crate is a
//! fixed-point integer: an `i64` counting thousandths of a unit (`SCALE`),
//! so all arithmetic is exact and fully specified.

use vstd::prelude::*;

pub mod brain;
pub mod control;
pub mod evolution;
pub mod fitness;
pub mod num;
pub mod sensors;
pub mod track;
pub mod vehicle;

verus! {

/// Fixed-point scale: a scalar value of one unit is stored as `SCALE`.
pub const SCALE: i64 = 1000;

/// Largest magnitude accepted for one network weight (a thousand units),
/// chosen so that dot products of bounded activations cannot overflow.
pub const WEIGHT_LIMIT: i64 = 1_000_000;

/// Largest magnitude accepted for one network input (a thousand units).
pub const INPUT_LIMIT: i64 = 1_000_000;

/// Largest magnitude accepted for a track coordinate (a million units),
/// chosen so that squared segment lengths fit in 64 bits.
pub const COORD_LIMIT: i64 = 1_000_000_000;

} // verus!
