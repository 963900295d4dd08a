//! Passive tracers advected through a prescribed, staggered velocity field on
//! a periodic rectangular grid.
//!
//! All quantities are fixed-point integers: a position is a count of lattice
//! quanta, a velocity is quanta per unit of time, and time is counted in
//! [`tracer::TIME_SCALE`] steps per unit. Every rounding is a floor, so each
//! step of the simulation is an exact function of its inputs.

pub mod grid;
pub mod velocity;
pub mod tracer;
pub mod simulation;
