//! Rigid bodies, contact manifolds, and the contact constraint that is solved
//! for one dynamic body resting on a fixed partner.

pub mod body;
pub mod contact;
pub mod ground_constraint;
pub mod impulse_laws;
