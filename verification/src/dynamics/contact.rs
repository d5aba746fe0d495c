//! Contact manifolds as the narrow phase hands them to the solver.

use crate::dynamics::body::RigidBodyHandle;
use crate::math::Real;
use crate::vector::{Point, Vector};
use vstd::prelude::*;

verus! {

/// Index of a manifold in the list that the solver writes impulses back to.
pub type ContactManifoldIndex = usize;

/// The two bodies of a manifold.
#[derive(Clone, Copy, Debug)]
pub struct BodyPair {
    pub body1: RigidBodyHandle,
    pub body2: RigidBodyHandle,
}

/// Impulses that a contact point keeps from one step to the next.
#[derive(Clone, Copy, Debug)]
pub struct ContactData {
    /// Impulse along the contact normal.
    pub impulse: Real,
    /// Impulse along each of the two tangent directions.
    pub tangent_impulse: [Real; 2],
}

impl ContactData {
    pub fn new(impulse: Real, tangent_impulse: [Real; 2]) -> (r: ContactData)
        ensures
            r == (ContactData { impulse, tangent_impulse }),
    {
        ContactData { impulse, tangent_impulse }
    }
}

/// A contact point that the narrow phase tracks across steps.
#[derive(Clone, Copy, Debug)]
pub struct TrackedContact {
    pub data: ContactData,
}

/// A contact point prepared for the solver.
#[derive(Clone, Copy, Debug)]
pub struct SolverContact {
    /// The contact point, in world space.
    pub point: Point,
    /// Signed separation: negative where the shapes penetrate.
    pub dist: Real,
    pub friction: Real,
    pub restitution: Real,
    /// Impulses of the previous step.
    pub data: ContactData,
}

/// What the solver reads of a manifold.
pub struct ContactManifoldData {
    pub body_pair: BodyPair,
    /// Unit contact normal, in world space, pointing from the first body.
    pub normal: Vector,
    pub solver_contacts: Vec<SolverContact>,
    /// Twist impulse of the previous step.
    pub twist_impulse: Real,
    pub warmstart_multiplier: Real,
    /// Where the first constraint of this manifold stands among the
    /// constraints of the step.
    pub constraint_index: usize,
}

impl ContactManifoldData {
    pub open spec fn spec_num_active_contacts(&self) -> nat {
        self.solver_contacts@.len()
    }

    /// Number of contact points that take part in the solve.
    pub fn num_active_contacts(&self) -> (n: usize)
        ensures
            n == self.spec_num_active_contacts(),
    {
        self.solver_contacts.len()
    }
}

/// The contact between two bodies.
pub struct ContactManifold {
    /// The tracked points; the active ones come first.
    pub points: Vec<TrackedContact>,
    pub data: ContactManifoldData,
}

} // verus!
