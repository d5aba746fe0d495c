//! The bodies and step parameters that a contact constraint is built from.

use crate::math::Real;
use crate::vector::{AngularInertia, Point, Vector};
use vstd::prelude::*;

verus! {

/// Index of a body in its [`RigidBodySet`].
pub type RigidBodyHandle = usize;

/// The state of one body that contact resolution reads.
#[derive(Clone, Copy, Debug)]
pub struct RigidBody {
    /// Whether forces move this body; a body that is not dynamic is fixed or
    /// driven from outside the solver.
    pub dynamic: bool,
    pub effective_inv_mass: Real,
    /// Square root of the inverse inertia tensor, in world space.
    pub effective_world_inv_inertia_sqrt: AngularInertia,
    pub linvel: Vector,
    pub angvel: Vector,
    /// Centre of mass, in world space.
    pub world_com: Point,
    /// Slot of this body in the buffer of velocity changes of its island.
    pub island_offset: usize,
}

impl RigidBody {
    pub open spec fn spec_is_dynamic(&self) -> bool {
        self.dynamic
    }

    #[verifier::when_used_as_spec(spec_is_dynamic)]
    pub fn is_dynamic(&self) -> (r: bool)
        ensures
            r == self.dynamic,
    {
        self.dynamic
    }
}

/// The bodies of a scene, addressed by handle.
pub struct RigidBodySet {
    pub bodies: Vec<RigidBody>,
}

impl View for RigidBodySet {
    type V = Seq<RigidBody>;

    open spec fn view(&self) -> Seq<RigidBody> {
        self.bodies@
    }
}

impl RigidBodySet {
    pub fn new() -> (r: RigidBodySet)
        ensures
            r@.len() == 0,
    {
        RigidBodySet { bodies: Vec::new() }
    }

    /// Adds a body and returns its handle.
    pub fn insert(&mut self, body: RigidBody) -> (handle: RigidBodyHandle)
        ensures
            final(self)@ == old(self)@.push(body),
            handle == old(self)@.len(),
    {
        let handle = self.bodies.len();
        self.bodies.push(body);
        handle
    }

    pub fn len(&self) -> (n: usize)
        ensures
            n == self@.len(),
    {
        self.bodies.len()
    }

    pub fn get(&self, handle: RigidBodyHandle) -> (body: &RigidBody)
        requires
            handle < self@.len(),
        ensures
            *body == self@[handle as int],
    {
        &self.bodies[handle]
    }
}

/// Accumulated change of velocity of one body during a step.
#[derive(Clone, Copy, Debug, PartialEq, Eq, Structural)]
pub struct DeltaVel {
    pub linear: Vector,
    pub angular: Vector,
}

impl DeltaVel {
    pub open spec fn spec_zero() -> DeltaVel {
        DeltaVel { linear: Vector::zero(), angular: Vector::zero() }
    }

    /// The change of velocity after one more impulse of size `impulse` on a
    /// body of inverse mass `im2`, along `dir` and with lever arm `gcross2`.
    pub open spec fn spec_apply(self, dir: Vector, im2: Real, gcross2: Vector, impulse: Real) -> DeltaVel {
        DeltaVel {
            linear: self.linear.add(dir.scale(im2.neg().mul(impulse))),
            angular: self.angular.add(gcross2.scale(impulse)),
        }
    }

    /// The change of velocity after one more purely angular impulse.
    pub open spec fn spec_apply_angular(self, gcross2: Vector, impulse: Real) -> DeltaVel {
        DeltaVel { linear: self.linear, angular: self.angular.add(gcross2.scale(impulse)) }
    }

    #[verifier::when_used_as_spec(spec_zero)]
    pub fn zero() -> (r: DeltaVel)
        ensures
            r == DeltaVel::spec_zero(),
    {
        DeltaVel { linear: Vector::zero(), angular: Vector::zero() }
    }

    #[verifier::when_used_as_spec(spec_apply)]
    pub fn apply(self, dir: Vector, im2: Real, gcross2: Vector, impulse: Real) -> (r: DeltaVel)
        ensures
            r == self.spec_apply(dir, im2, gcross2, impulse),
    {
        DeltaVel {
            linear: self.linear.add(dir.scale(im2.neg().mul(impulse))),
            angular: self.angular.add(gcross2.scale(impulse)),
        }
    }

    #[verifier::when_used_as_spec(spec_apply_angular)]
    pub fn apply_angular(self, gcross2: Vector, impulse: Real) -> (r: DeltaVel)
        ensures
            r == self.spec_apply_angular(gcross2, impulse),
    {
        DeltaVel { linear: self.linear, angular: self.angular.add(gcross2.scale(impulse)) }
    }
}

/// Parameters of one simulation step.
#[derive(Clone, Copy, Debug)]
pub struct IntegrationParameters {
    /// Length of the step.
    pub dt: Real,
    /// Approach speed from which restitution applies.
    pub restitution_velocity_threshold: Real,
    /// Share of the impulses of the previous step that seeds this one.
    pub warmstart_coeff: Real,
    /// Error-reduction factor of the soft constraint: the share of a
    /// penetration that one step corrects, per unit of time.
    pub erp: Real,
    /// Compliance that the soft constraint mixes into the effective mass.
    pub cfm: Real,
    /// Factor by which a solver pass decays an accumulated normal impulse.
    pub impulse_scale: Real,
}

impl IntegrationParameters {
    /// Reciprocal of the step length; zero for a step of length zero.
    pub open spec fn spec_inv_dt(&self) -> Real {
        self.dt.inv()
    }

    #[verifier::when_used_as_spec(spec_inv_dt)]
    pub fn inv_dt(&self) -> (r: Real)
        ensures
            r == self.spec_inv_dt(),
    {
        self.dt.inv()
    }
}

} // verus!
