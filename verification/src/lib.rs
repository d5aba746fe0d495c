//! Verified hot-path kernels of a rigid-body simulation step: a sweep-and-prune
//! axis that keeps interval endpoints sorted, and a sequential-impulse
//! constraint that resolves the contact of one dynamic body against a fixed
//! partner. All scalars are saturating fixed-point numbers, so every operation
//! is total and deterministic.

pub mod math;
pub mod vector;
pub mod dynamics;
pub mod geometry;
