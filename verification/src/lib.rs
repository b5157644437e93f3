//! # Rain trapped in terrain
//!
//! A terrain is a sequence of integer elevations, one per unit-width column.
//! After rain, the water standing on a column reaches up to the lower of the
//! highest column at or left of it and the highest column at or right of it;
//! whatever lies outside the terrain drains away. This crate computes the
//! total volume of water that stays, by several interchangeable strategies,
//! and proves each of them against one mathematical definition.
//!
//! * [`model`] says what the trapped volume is.
//! * [`two_pointer`], [`max_split`] and [`reorder`] are the strategies.
//!   They share the arithmetic of [`accumulate`], the running-maximum fold
//!   of [`stair`] and the reasoning of [`inward`].
//! * [`laws`] states what holds of the volume and of every strategy.
//! * [`terrain`] makes terrains of random elevations to try them on.
//!
//! Elevations are `i64` and may be negative. A result is a `u64`: the
//! trapped volume whenever that fits, which it does unless the terrain is
//! both very long and very uneven, and the low 64 bits of it otherwise.

pub mod accumulate;
pub mod inward;
pub mod laws;
pub mod max_split;
pub mod model;
pub mod reorder;
pub mod stair;
pub mod sum;
pub mod terrain;
pub mod two_pointer;

pub use crate::max_split::{compute_rain_collected3, index_of_maximum};
pub use crate::reorder::{compute_rain_collected, compute_rain_collected2, compute_rain_collected_v};
pub use crate::terrain::random_terrain;
pub use crate::two_pointer::{trap, trap_unsafe, trap_v};
