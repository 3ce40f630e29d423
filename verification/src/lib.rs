//! Newtonian gravitation among any number of disc-shaped bodies, advanced in
//! discrete ticks.
//!
//! In every tick each body gathers the pull of all the others, bodies that
//! touch are merged into one, and the bodies that were not merged move by one
//! step of the chosen integrator.
//!
//! All quantities are fixed-point numbers: an `i64` that counts millionths
//! (`arith::SCALE` raw units make one whole unit), kept within
//! `arith::LIMIT` of zero by saturation. A tick lasts one unit of time, so a
//! velocity is the displacement of one tick.
//!
//! - [`arith`]: the fixed-point range, integer square and cube roots.
//! - [`vector`]: points and displacements.
//! - [`body`]: a body, its two integrators and its trail.
//! - [`physics`]: distance, bearing, attraction, merging, and the tick.
//! - [`scene`]: changes to the collection between ticks.
//! - [`theory`]: what every merge and every tick conserves.

pub mod arith;
pub mod body;
pub mod physics;
pub mod scene;
pub mod theory;
pub mod vector;
