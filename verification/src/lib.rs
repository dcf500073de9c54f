//! The order of work of a smoothed-particle fluid solver.
//!
//! A fluid is a fixed set of particles. One update of the fluid runs three
//! passes over them: densities and pressures, then forces, then integration.
//! The first two are sums over all pairs of particles, so their results
//! depend on which pairs are visited, in which order, and on every result of
//! a pass being final before the next pass reads it.
//!
//! This library holds that order and proves what it promises. [`plan`] states
//! the steps of an update as a sequence, [`cursor`] walks through it with no
//! more state than the step that comes next, and [`lattice`] says in which
//! grid cell each particle of a fresh fluid starts. The arithmetic of a step
//! is the caller's: the library names particles by index and never looks at
//! what they hold.

pub mod cursor;
pub mod lattice;
pub mod plan;
pub mod step;
