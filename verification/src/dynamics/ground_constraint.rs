//! The velocity constraint of one dynamic body in contact with a body that
//! does not move under forces, with friction shared by the whole manifold.
//!
//! A constraint holds up to four contact points. Each point has a normal
//! element that keeps the bodies apart; two tangent elements, evaluated at the
//! centre of the points, carry Coulomb friction; one twist element resists
//! spinning about the normal.

use crate::dynamics::body::{DeltaVel, IntegrationParameters, RigidBody, RigidBodySet};
use crate::dynamics::impulse_laws::{
    lemma_generated_wf, lemma_solve_keeps_setup, lemma_solve_normal_impulses_nonnegative,
    lemma_solve_tangent_impulses_within_friction, lemma_solve_twist_impulse_within_limit,
};
use crate::dynamics::contact::{
    ContactData, ContactManifold, ContactManifoldIndex, SolverContact, TrackedContact,
};
use crate::math::{Real, MAX_MANIFOLD_POINTS};
use crate::vector::{Point, Vector};
use vstd::array::spec_array_update;
use vstd::prelude::*;

verus! {

/// The solved state of one scalar degree of freedom.
#[derive(Copy, Clone, Debug)]
pub struct VelocityConstraintElementPart {
    /// Lever arm of the solved body, weighted by its inverse inertia.
    pub gcross2: Vector,
    /// Velocity that the element has to remove.
    pub rhs: Real,
    /// Impulse accumulated so far.
    pub impulse: Real,
    /// Reciprocal of the generalized mass seen along the element.
    pub r: Real,
}

impl VelocityConstraintElementPart {
    pub open spec fn spec_zero() -> VelocityConstraintElementPart {
        VelocityConstraintElementPart {
            gcross2: Vector::zero(),
            rhs: Real::zero(),
            impulse: Real::zero(),
            r: Real::zero(),
        }
    }

    #[verifier::when_used_as_spec(spec_zero)]
    pub fn zero() -> (part: VelocityConstraintElementPart)
        ensures
            part == VelocityConstraintElementPart::spec_zero(),
    {
        VelocityConstraintElementPart {
            gcross2: Vector::zero(),
            rhs: Real::zero(),
            impulse: Real::zero(),
            r: Real::zero(),
        }
    }
}

/// The two bodies of a manifold in the order the constraint solves them: the
/// body that forces do not move first, the solved body second.
#[derive(Copy, Clone, Debug)]
pub struct ContactFrame {
    pub rb1: RigidBody,
    pub rb2: RigidBody,
    /// Direction of the contact force on the first body.
    pub force_dir1: Vector,
    /// Share of the persisted impulses that seeds the constraint.
    pub warmstart_coeff: Real,
}

impl ContactFrame {
    /// Where the second body of the manifold is not dynamic the two bodies
    /// change places and the force direction is the normal itself; else it is
    /// the opposite of the normal.
    pub open spec fn spec_new(
        params: &IntegrationParameters,
        manifold: &ContactManifold,
        bodies: &RigidBodySet,
    ) -> ContactFrame {
        let b1 = bodies@[manifold.data.body_pair.body1 as int];
        let b2 = bodies@[manifold.data.body_pair.body2 as int];
        let warmstart_coeff = manifold.data.warmstart_multiplier.mul(params.warmstart_coeff);
        if !b2.is_dynamic() {
            ContactFrame { rb1: b2, rb2: b1, force_dir1: manifold.data.normal, warmstart_coeff }
        } else {
            ContactFrame {
                rb1: b1,
                rb2: b2,
                force_dir1: manifold.data.normal.neg(),
                warmstart_coeff,
            }
        }
    }

    /// Velocity of the first body relative to the second at the point `at`.
    pub open spec fn spec_relative_velocity(&self, at: Point) -> Vector {
        let vel1 = self.rb1.linvel.add(self.rb1.angvel.cross(at.sub(self.rb1.world_com)));
        let vel2 = self.rb2.linvel.add(self.rb2.angvel.cross(at.sub(self.rb2.world_com)));
        vel1.sub(vel2)
    }

    /// Inertia-weighted lever arm of the solved body for a force at `at`
    /// against the direction `dir`.
    pub open spec fn spec_lever_arm(&self, at: Point, dir: Vector) -> Vector {
        self.rb2.effective_world_inv_inertia_sqrt.transform_vector(
            at.sub(self.rb2.world_com).cross(dir.neg()),
        )
    }

    /// The normal element of one contact point.
    ///
    /// Its bias is the relative velocity along the force direction; plus that
    /// velocity times the restitution, where the bodies approach faster than
    /// the threshold speed; plus the separation times the
    /// error-reduction factor where the point penetrates, or times the
    /// reciprocal of the step where it does not.
    pub open spec fn spec_normal_part(
        &self,
        params: &IntegrationParameters,
        point: SolverContact,
    ) -> VelocityConstraintElementPart {
        let gcross2 = self.spec_lever_arm(point.point, self.force_dir1);
        let r = params.cfm.add(self.rb2.effective_inv_mass).add(gcross2.dot(gcross2)).inv();
        let approach = self.spec_relative_velocity(point.point).dot(self.force_dir1);
        let bounced = if approach.raw < params.restitution_velocity_threshold.neg().raw {
            approach.add(point.restitution.mul(approach))
        } else {
            approach
        };
        let rhs = if point.dist.raw < 0 {
            bounced.add(point.dist.mul(params.erp))
        } else {
            bounced.add(point.dist.mul(params.inv_dt()))
        };
        VelocityConstraintElementPart {
            gcross2,
            rhs,
            impulse: point.data.impulse.mul(self.warmstart_coeff),
            r,
        }
    }

    /// The tangent element along `tangent`, evaluated at `center` and seeded
    /// with the persisted impulse `persisted`.
    pub open spec fn spec_tangent_part(
        &self,
        center: Point,
        tangent: Vector,
        persisted: Real,
    ) -> VelocityConstraintElementPart {
        let gcross2 = self.spec_lever_arm(center, tangent);
        VelocityConstraintElementPart {
            gcross2,
            rhs: self.spec_relative_velocity(center).dot(tangent),
            impulse: persisted.mul(self.warmstart_coeff),
            r: self.rb2.effective_inv_mass.add(gcross2.dot(gcross2)).inv(),
        }
    }

    /// The twist element, seeded with the persisted impulse `persisted`.
    pub open spec fn spec_twist_part(&self, persisted: Real) -> VelocityConstraintElementPart {
        let gcross2 = self.rb2.effective_world_inv_inertia_sqrt.transform_vector(
            self.force_dir1.neg(),
        );
        VelocityConstraintElementPart {
            gcross2,
            rhs: self.rb1.angvel.sub(self.rb2.angvel).dot(self.force_dir1),
            impulse: persisted.mul(self.warmstart_coeff),
            r: gcross2.norm_squared().inv(),
        }
    }

    pub fn new(
        params: &IntegrationParameters,
        manifold: &ContactManifold,
        bodies: &RigidBodySet,
    ) -> (frame: ContactFrame)
        requires
            manifold.data.body_pair.body1 < bodies@.len(),
            manifold.data.body_pair.body2 < bodies@.len(),
        ensures
            frame == ContactFrame::spec_new(params, manifold, bodies),
    {
        let b1 = *bodies.get(manifold.data.body_pair.body1);
        let b2 = *bodies.get(manifold.data.body_pair.body2);
        let warmstart_coeff = manifold.data.warmstart_multiplier.mul(params.warmstart_coeff);
        if !b2.is_dynamic() {
            ContactFrame { rb1: b2, rb2: b1, force_dir1: manifold.data.normal, warmstart_coeff }
        } else {
            ContactFrame {
                rb1: b1,
                rb2: b2,
                force_dir1: manifold.data.normal.neg(),
                warmstart_coeff,
            }
        }
    }

    pub fn relative_velocity(&self, at: Point) -> (v: Vector)
        ensures
            v == self.spec_relative_velocity(at),
    {
        let vel1 = self.rb1.linvel.add(self.rb1.angvel.cross(at.sub(self.rb1.world_com)));
        let vel2 = self.rb2.linvel.add(self.rb2.angvel.cross(at.sub(self.rb2.world_com)));
        vel1.sub(vel2)
    }

    pub fn lever_arm(&self, at: Point, dir: Vector) -> (v: Vector)
        ensures
            v == self.spec_lever_arm(at, dir),
    {
        self.rb2.effective_world_inv_inertia_sqrt.transform_vector(
            at.sub(self.rb2.world_com).cross(dir.neg()),
        )
    }

    pub fn normal_part(&self, params: &IntegrationParameters, point: SolverContact) -> (part:
        VelocityConstraintElementPart)
        ensures
            part == self.spec_normal_part(params, point),
    {
        let gcross2 = self.lever_arm(point.point, self.force_dir1);
        let r = params.cfm.add(self.rb2.effective_inv_mass).add(gcross2.dot(gcross2)).inv();
        let mut rhs = self.relative_velocity(point.point).dot(self.force_dir1);
        if rhs.raw < params.restitution_velocity_threshold.neg().raw {
            rhs = rhs.add(point.restitution.mul(rhs));
        }
        if point.dist.raw < 0 {
            rhs = rhs.add(point.dist.mul(params.erp));
        } else {
            rhs = rhs.add(point.dist.mul(params.inv_dt()));
        }
        VelocityConstraintElementPart {
            gcross2,
            rhs,
            impulse: point.data.impulse.mul(self.warmstart_coeff),
            r,
        }
    }

    pub fn tangent_part(&self, center: Point, tangent: Vector, persisted: Real) -> (part:
        VelocityConstraintElementPart)
        ensures
            part == self.spec_tangent_part(center, tangent, persisted),
    {
        let gcross2 = self.lever_arm(center, tangent);
        VelocityConstraintElementPart {
            gcross2,
            rhs: self.relative_velocity(center).dot(tangent),
            impulse: persisted.mul(self.warmstart_coeff),
            r: self.rb2.effective_inv_mass.add(gcross2.dot(gcross2)).inv(),
        }
    }

    pub fn twist_part(&self, persisted: Real) -> (part: VelocityConstraintElementPart)
        ensures
            part == self.spec_twist_part(persisted),
    {
        let gcross2 = self.rb2.effective_world_inv_inertia_sqrt.transform_vector(
            self.force_dir1.neg(),
        );
        VelocityConstraintElementPart {
            gcross2,
            rhs: self.rb1.angvel.sub(self.rb2.angvel).dot(self.force_dir1),
            impulse: persisted.mul(self.warmstart_coeff),
            r: gcross2.norm_squared().inv(),
        }
    }
}

/// The constraint between one dynamic body and a body that forces do not
/// move, over at most four contact points of one manifold.
#[derive(Copy, Clone, Debug)]
pub struct VelocityGroundConstraintWithManifoldFriction {
    /// Direction of the contact force on the first body.
    pub dir1: Vector,
    /// Inverse mass of the solved body.
    pub im2: Real,
    /// Friction coefficient.
    pub limit: Real,
    /// Slot of the solved body in the buffer of velocity changes.
    pub mj_lambda2: usize,
    pub manifold_id: ContactManifoldIndex,
    /// Index, in the manifold, of the first contact point of this constraint.
    pub manifold_contact_id: usize,
    pub num_contacts: u8,
    pub normal_parts: [VelocityConstraintElementPart; MAX_MANIFOLD_POINTS],
    pub tangent_parts: [VelocityConstraintElementPart; 2],
    pub twist_part: VelocityConstraintElementPart,
    /// Distance of each contact point from the centre of the points.
    pub twist_weights: [Real; MAX_MANIFOLD_POINTS],
    /// Factor by which a solver pass decays an accumulated normal impulse.
    pub impulse_scale: Real,
}

/// A velocity constraint of any kind that the step solver iterates over.
#[derive(Copy, Clone, Debug)]
pub enum AnyVelocityConstraint {
    NongroupedGround2(VelocityGroundConstraintWithManifoldFriction),
    Empty,
}

/// Number of constraints that `n` contact points are split into.
pub open spec fn spec_num_chunks(n: nat) -> nat {
    if n % 4 != 0 {
        n / 4 + 1
    } else {
        n / 4
    }
}

/// The contact points of the constraint number `l` of a manifold: four of
/// them, or as many as are left.
pub open spec fn spec_chunk(contacts: Seq<SolverContact>, l: int) -> Seq<SolverContact> {
    contacts.subrange(
        4 * l,
        if 4 * l + 4 <= contacts.len() {
            4 * l + 4
        } else {
            contacts.len() as int
        },
    )
}

/// Mean of the first `n` points, each divided by the number of points before
/// it is added.
pub open spec fn spec_center(points: Seq<SolverContact>, n: int) -> Point
    decreases n,
{
    if n <= 0 {
        Vector::zero()
    } else {
        spec_center(points, n - 1).add(
            points[n - 1].point.unscale(Real::spec_from_int(points.len() as int)),
        )
    }
}

/// Sum of the persisted impulses of the first `n` points along tangent `j`.
pub open spec fn spec_tangent_sum(points: Seq<SolverContact>, j: int, n: int) -> Real
    decreases n,
{
    if n <= 0 {
        Real::zero()
    } else {
        spec_tangent_sum(points, j, n - 1).add(points[n - 1].data.tangent_impulse@[j])
    }
}

impl VelocityGroundConstraintWithManifoldFriction {
    /// Slots beyond the contact points hold the zero element.
    pub open spec fn wf(&self) -> bool {
        &&& self.num_contacts <= MAX_MANIFOLD_POINTS
        &&& forall|k: int|
            self.num_contacts <= k < MAX_MANIFOLD_POINTS ==> #[trigger] self.normal_parts@[k]
                == VelocityConstraintElementPart::zero()
    }

    /// The normal element in slot `k`: that of point `k`, or zero.
    pub open spec fn spec_normal_slot(
        frame: &ContactFrame,
        params: &IntegrationParameters,
        points: Seq<SolverContact>,
        k: int,
    ) -> VelocityConstraintElementPart {
        if k < points.len() {
            frame.spec_normal_part(params, points[k])
        } else {
            VelocityConstraintElementPart::zero()
        }
    }

    /// The twist weight in slot `k`: the distance of point `k` from the
    /// centre, or zero.
    pub open spec fn spec_twist_weight(points: Seq<SolverContact>, k: int) -> Real {
        if k < points.len() {
            points[k].point.distance(spec_center(points, points.len() as int))
        } else {
            Real::zero()
        }
    }

    /// The constraint number `l` of a manifold.
    #[verifier::opaque]
    pub open spec fn spec_generate_chunk(
        frame: &ContactFrame,
        params: &IntegrationParameters,
        manifold_id: ContactManifoldIndex,
        manifold: &ContactManifold,
        l: int,
    ) -> VelocityGroundConstraintWithManifoldFriction {
        let points = spec_chunk(manifold.data.solver_contacts@, l);
        let n = points.len() as int;
        let center = spec_center(points, n);
        let tangents = frame.force_dir1.orthonormal_basis();
        VelocityGroundConstraintWithManifoldFriction {
            dir1: frame.force_dir1,
            im2: frame.rb2.effective_inv_mass,
            limit: if n > 0 {
                points[n - 1].friction
            } else {
                Real::zero()
            },
            mj_lambda2: frame.rb2.island_offset,
            manifold_id,
            manifold_contact_id: (4 * l) as usize,
            num_contacts: n as u8,
            normal_parts: [
                Self::spec_normal_slot(frame, params, points, 0),
                Self::spec_normal_slot(frame, params, points, 1),
                Self::spec_normal_slot(frame, params, points, 2),
                Self::spec_normal_slot(frame, params, points, 3),
            ],
            tangent_parts: [
                frame.spec_tangent_part(center, tangents@[0], spec_tangent_sum(points, 0, n)),
                frame.spec_tangent_part(center, tangents@[1], spec_tangent_sum(points, 1, n)),
            ],
            twist_part: frame.spec_twist_part(manifold.data.twist_impulse),
            twist_weights: [
                Self::spec_twist_weight(points, 0),
                Self::spec_twist_weight(points, 1),
                Self::spec_twist_weight(points, 2),
                Self::spec_twist_weight(points, 3),
            ],
            impulse_scale: params.impulse_scale,
        }
    }

    /// The constraints of a manifold, one for every four contact points, in
    /// the order of the points.
    pub open spec fn spec_generate(
        params: &IntegrationParameters,
        manifold_id: ContactManifoldIndex,
        manifold: &ContactManifold,
        bodies: &RigidBodySet,
    ) -> Seq<AnyVelocityConstraint> {
        Seq::new(
            spec_num_chunks(manifold.data.solver_contacts@.len()),
            |l: int|
                AnyVelocityConstraint::NongroupedGround2(
                    Self::spec_generate_chunk(
                        &ContactFrame::spec_new(params, manifold, bodies),
                        params,
                        manifold_id,
                        manifold,
                        l,
                    ),
                ),
        )
    }

    /// Number of constraints that the manifold is split into.
    pub fn num_active_constraints(manifold: &ContactManifold) -> (n: usize)
        ensures
            n == spec_num_chunks(manifold.data.solver_contacts@.len()),
    {
        let len = manifold.data.solver_contacts.len();
        if len % MAX_MANIFOLD_POINTS != 0 {
            len / MAX_MANIFOLD_POINTS + 1
        } else {
            len / MAX_MANIFOLD_POINTS
        }
    }

    /// Builds the constraint number `l` of a manifold.
    pub fn generate_chunk(
        frame: &ContactFrame,
        params: &IntegrationParameters,
        manifold_id: ContactManifoldIndex,
        manifold: &ContactManifold,
        l: usize,
    ) -> (constraint: VelocityGroundConstraintWithManifoldFriction)
        requires
            l < spec_num_chunks(manifold.data.solver_contacts@.len()),
        ensures
            constraint == Self::spec_generate_chunk(frame, params, manifold_id, manifold, l as int),
            constraint.wf(),
            constraint.num_contacts >= 1,
    {
        let contacts = &manifold.data.solver_contacts;
        let total = contacts.len();
        assert(4 * l < total);
        let start: usize = l * MAX_MANIFOLD_POINTS;
        let n: usize = if total - start < MAX_MANIFOLD_POINTS {
            total - start
        } else {
            MAX_MANIFOLD_POINTS
        };
        let ghost points = spec_chunk(contacts@, l as int);
        assert(points.len() == n);
        assert(forall|k: int| 0 <= k < n ==> points[k] == contacts@[start + k]);
        let count = Real::from_usize(n);
        let zero_part = VelocityConstraintElementPart::zero();
        let mut normal_parts = [zero_part, zero_part, zero_part, zero_part];
        let mut center = Vector::zero();
        let mut tangent_sum0 = Real::zero();
        let mut tangent_sum1 = Real::zero();
        let mut limit = Real::zero();
        let mut k: usize = 0;
        while k < n
            invariant
                k <= n <= MAX_MANIFOLD_POINTS,
                n == points.len(),
                start + n <= contacts@.len() <= usize::MAX,
                count == Real::spec_from_int(n as int),
                forall|i: int| 0 <= i < n ==> points[i] == contacts@[start + i],
                center == spec_center(points, k as int),
                tangent_sum0 == spec_tangent_sum(points, 0, k as int),
                tangent_sum1 == spec_tangent_sum(points, 1, k as int),
                limit == if k > 0 {
                    points[k - 1].friction
                } else {
                    Real::zero()
                },
                forall|i: int|
                    0 <= i < MAX_MANIFOLD_POINTS ==> normal_parts@[i] == if i < k {
                        Self::spec_normal_slot(frame, params, points, i)
                    } else {
                        VelocityConstraintElementPart::zero()
                    },
            decreases n - k,
        {
            let point = contacts[start + k];
            center = center.add(point.point.unscale(count));
            limit = point.friction;
            tangent_sum0 = tangent_sum0.add(point.data.tangent_impulse[0]);
            tangent_sum1 = tangent_sum1.add(point.data.tangent_impulse[1]);
            normal_parts[k] = frame.normal_part(params, point);
            k += 1;
        }
        let tangents = frame.force_dir1.orthonormal_basis();
        let tangent_parts = [
            frame.tangent_part(center, tangents[0], tangent_sum0),
            frame.tangent_part(center, tangents[1], tangent_sum1),
        ];
        let mut twist_weights = [Real::zero(), Real::zero(), Real::zero(), Real::zero()];
        let mut k: usize = 0;
        while k < n
            invariant
                k <= n <= MAX_MANIFOLD_POINTS,
                n == points.len(),
                start + n <= contacts@.len() <= usize::MAX,
                forall|i: int| 0 <= i < n ==> points[i] == contacts@[start + i],
                center == spec_center(points, n as int),
                forall|i: int|
                    0 <= i < MAX_MANIFOLD_POINTS ==> twist_weights@[i] == if i < k {
                        Self::spec_twist_weight(points, i)
                    } else {
                        Real::zero()
                    },
            decreases n - k,
        {
            twist_weights[k] = contacts[start + k].point.distance(center);
            k += 1;
        }
        let constraint = VelocityGroundConstraintWithManifoldFriction {
            dir1: frame.force_dir1,
            im2: frame.rb2.effective_inv_mass,
            limit,
            mj_lambda2: frame.rb2.island_offset,
            manifold_id,
            manifold_contact_id: start,
            num_contacts: n as u8,
            normal_parts,
            tangent_parts,
            twist_part: frame.twist_part(manifold.data.twist_impulse),
            twist_weights,
            impulse_scale: params.impulse_scale,
        };
        proof {
            reveal(VelocityGroundConstraintWithManifoldFriction::spec_generate_chunk);
            let expected = Self::spec_generate_chunk(frame, params, manifold_id, manifold, l as int);
            assert(constraint.normal_parts =~= expected.normal_parts);
            assert(constraint.tangent_parts =~= expected.tangent_parts);
            assert(constraint.twist_weights =~= expected.twist_weights);
        }
        constraint
    }

    /// Builds the constraints of a manifold, one for every four contact
    /// points, and stores them in `out_constraints`: at its end where `push`
    /// is set, else in place from the manifold's constraint index on.
    pub fn generate(
        params: &IntegrationParameters,
        manifold_id: ContactManifoldIndex,
        manifold: &ContactManifold,
        bodies: &RigidBodySet,
        out_constraints: &mut Vec<AnyVelocityConstraint>,
        push: bool,
    )
        requires
            manifold.data.body_pair.body1 < bodies@.len(),
            manifold.data.body_pair.body2 < bodies@.len(),
            !push ==> manifold.data.constraint_index + spec_num_chunks(
                manifold.data.solver_contacts@.len(),
            ) <= old(out_constraints)@.len(),
        ensures
            push ==> final(out_constraints)@ == old(out_constraints)@ + Self::spec_generate(
                params,
                manifold_id,
                manifold,
                bodies,
            ),
            !push ==> final(out_constraints)@ == old(out_constraints)@.take(
                manifold.data.constraint_index as int,
            ) + Self::spec_generate(params, manifold_id, manifold, bodies) + old(
                out_constraints,
            )@.skip(
                manifold.data.constraint_index + spec_num_chunks(
                    manifold.data.solver_contacts@.len(),
                ),
            ),
            forall|l: int|
                0 <= l < spec_num_chunks(manifold.data.solver_contacts@.len()) ==> (
                #[trigger] Self::spec_generate_chunk(
                    &ContactFrame::spec_new(params, manifold, bodies),
                    params,
                    manifold_id,
                    manifold,
                    l,
                )).wf(),
    {
        proof {
            assert forall|l: int|
                0 <= l < spec_num_chunks(manifold.data.solver_contacts@.len()) implies (
            #[trigger] Self::spec_generate_chunk(
                &ContactFrame::spec_new(params, manifold, bodies),
                params,
                manifold_id,
                manifold,
                l,
            )).wf() by {
                lemma_generated_wf(
                    ContactFrame::spec_new(params, manifold, bodies),
                    *params,
                    manifold_id,
                    *manifold,
                    l,
                );
            }
        }
        let frame = ContactFrame::new(params, manifold, bodies);
        let chunks = Self::num_active_constraints(manifold);
        let _len = out_constraints.len();
        let ghost generated = Self::spec_generate(params, manifold_id, manifold, bodies);
        let ghost first = manifold.data.constraint_index as int;
        let mut l: usize = 0;
        while l < chunks
            invariant
                l <= chunks,
                chunks == spec_num_chunks(manifold.data.solver_contacts@.len()),
                frame == ContactFrame::spec_new(params, manifold, bodies),
                generated == Self::spec_generate(params, manifold_id, manifold, bodies),
                first == manifold.data.constraint_index,
                !push ==> first + chunks <= old(out_constraints)@.len() == _len,
                push ==> out_constraints@ == old(out_constraints)@ + generated.take(l as int),
                !push ==> out_constraints@.len() == old(out_constraints)@.len(),
                !push ==> forall|i: int|
                    0 <= i < old(out_constraints)@.len() ==> #[trigger] out_constraints@[i] == if first
                        <= i < first + l {
                        generated[i - first]
                    } else {
                        old(out_constraints)@[i]
                    },
            decreases chunks - l,
        {
            let constraint = Self::generate_chunk(&frame, params, manifold_id, manifold, l);
            assert(generated[l as int] == AnyVelocityConstraint::NongroupedGround2(constraint));
            if push {
                out_constraints.push(AnyVelocityConstraint::NongroupedGround2(constraint));
                assert(out_constraints@ =~= old(out_constraints)@ + generated.take(l + 1));
            } else {
                out_constraints[manifold.data.constraint_index + l] =
                    AnyVelocityConstraint::NongroupedGround2(constraint);
            }
            l += 1;
        }
        proof {
            if push {
                assert(generated.take(chunks as int) =~= generated);
            } else {
                assert(out_constraints@ =~= old(out_constraints)@.take(first) + generated + old(
                    out_constraints,
                )@.skip(first + chunks));
            }
        }
    }

    /// Sum of the impulses of the four normal elements.
    pub open spec fn spec_normal_impulse_sum(&self) -> Real {
        self.normal_parts@[0].impulse.add(self.normal_parts@[1].impulse).add(
            self.normal_parts@[2].impulse,
        ).add(self.normal_parts@[3].impulse)
    }

    /// Largest size that a tangent impulse may take: the friction coefficient
    /// times the sum of the normal impulses.
    pub open spec fn spec_friction_limit(&self) -> Real {
        self.limit.mul(self.spec_normal_impulse_sum())
    }

    /// Largest size that the twist impulse may take: the friction coefficient
    /// times the sum of the normal impulses, each weighted by the distance of
    /// its point from the centre.
    pub open spec fn spec_twist_limit(&self) -> Real {
        self.limit.mul(
            self.normal_parts@[0].impulse.mul(self.twist_weights@[0]).add(
                self.normal_parts@[1].impulse.mul(self.twist_weights@[1]),
            ).add(self.normal_parts@[2].impulse.mul(self.twist_weights@[2])).add(
                self.normal_parts@[3].impulse.mul(self.twist_weights@[3]),
            ),
        )
    }

    /// Velocity that an element still has to remove along `dir`, given the
    /// change of velocity so far.
    pub open spec fn spec_residual(
        dir: Vector,
        elt: VelocityConstraintElementPart,
        dv: DeltaVel,
    ) -> Real {
        dir.dot(dv.linear).neg().add(elt.gcross2.dot(dv.angular)).add(elt.rhs)
    }

    /// The change of velocity that the stored impulses of the first `n`
    /// normal elements cause.
    pub open spec fn spec_warmstart_normals(&self, n: int) -> DeltaVel
        decreases n,
    {
        if n <= 0 {
            DeltaVel::zero()
        } else {
            self.spec_warmstart_normals(n - 1).apply(
                self.dir1,
                self.im2,
                self.normal_parts@[n - 1].gcross2,
                self.normal_parts@[n - 1].impulse,
            )
        }
    }

    /// The change of velocity that all stored impulses cause: those of the
    /// normal elements in use, then the two tangent elements, then the twist.
    pub open spec fn spec_warmstart_delta(&self) -> DeltaVel {
        let tangents = self.dir1.orthonormal_basis();
        self.spec_warmstart_normals(self.num_contacts as int).apply(
            tangents@[0],
            self.im2,
            self.tangent_parts@[0].gcross2,
            self.tangent_parts@[0].impulse,
        ).apply(
            tangents@[1],
            self.im2,
            self.tangent_parts@[1].gcross2,
            self.tangent_parts@[1].impulse,
        ).apply_angular(self.twist_part.gcross2, self.twist_part.impulse)
    }

    /// One relaxation of tangent element `j`: its impulse moves against the
    /// residual and is clamped to the friction limit; the difference is
    /// applied to the change of velocity.
    pub open spec fn spec_solve_tangent(self, dv: DeltaVel, j: int) -> (Self, DeltaVel) {
        let tangent = self.dir1.orthonormal_basis()@[j];
        let elt = self.tangent_parts@[j];
        let limit = self.spec_friction_limit();
        let new_impulse = elt.impulse.sub(elt.r.mul(Self::spec_residual(tangent, elt, dv))).clamp(
            limit.neg(),
            limit,
        );
        (
            VelocityGroundConstraintWithManifoldFriction {
                tangent_parts: spec_array_update(
                    self.tangent_parts,
                    j,
                    VelocityConstraintElementPart { impulse: new_impulse, ..elt },
                ),
                ..self
            },
            dv.apply(tangent, self.im2, elt.gcross2, new_impulse.sub(elt.impulse)),
        )
    }

    /// One relaxation of normal element `i`: its impulse decays by the impulse
    /// scale, moves against the residual and is kept from falling below zero.
    pub open spec fn spec_solve_normal(self, dv: DeltaVel, i: int) -> (Self, DeltaVel) {
        let elt = self.normal_parts@[i];
        let new_impulse = elt.impulse.mul(self.impulse_scale).sub(
            elt.r.mul(Self::spec_residual(self.dir1, elt, dv)),
        ).max(Real::zero());
        (
            VelocityGroundConstraintWithManifoldFriction {
                normal_parts: spec_array_update(
                    self.normal_parts,
                    i,
                    VelocityConstraintElementPart { impulse: new_impulse, ..elt },
                ),
                ..self
            },
            dv.apply(self.dir1, self.im2, elt.gcross2, new_impulse.sub(elt.impulse)),
        )
    }

    /// The first `n` normal elements relaxed one after the other.
    pub open spec fn spec_solve_normals(self, dv: DeltaVel, n: int) -> (Self, DeltaVel)
        decreases n,
    {
        if n <= 0 {
            (self, dv)
        } else {
            let before = self.spec_solve_normals(dv, n - 1);
            before.0.spec_solve_normal(before.1, n - 1)
        }
    }

    /// One relaxation of the twist element, clamped to the twist limit.
    pub open spec fn spec_solve_twist(self, dv: DeltaVel) -> (Self, DeltaVel) {
        let elt = self.twist_part;
        let limit = self.spec_twist_limit();
        let new_impulse = elt.impulse.sub(
            elt.r.mul(elt.gcross2.dot(dv.angular).add(elt.rhs)),
        ).clamp(limit.neg(), limit);
        (
            VelocityGroundConstraintWithManifoldFriction {
                twist_part: VelocityConstraintElementPart { impulse: new_impulse, ..elt },
                ..self
            },
            dv.apply_angular(elt.gcross2, new_impulse.sub(elt.impulse)),
        )
    }

    /// The first `n` tangent elements relaxed one after the other.
    pub open spec fn spec_solve_tangents(self, dv: DeltaVel, n: int) -> (Self, DeltaVel)
        decreases n,
    {
        if n <= 0 {
            (self, dv)
        } else {
            let before = self.spec_solve_tangents(dv, n - 1);
            before.0.spec_solve_tangent(before.1, n - 1)
        }
    }

    /// One solver pass: friction first, then non-penetration, then twist.
    pub open spec fn spec_solve(self, dv: DeltaVel) -> (Self, DeltaVel) {
        let after_tangents = self.spec_solve_tangents(dv, 2);
        let after_normals = after_tangents.0.spec_solve_normals(
            after_tangents.1,
            self.num_contacts as int,
        );
        after_normals.0.spec_solve_twist(after_normals.1)
    }

    /// The impulses that contact point `k` of this constraint keeps for the
    /// next step: its normal impulse, and of each tangent impulse the share
    /// that its normal impulse has in the sum of the normal impulses.
    pub open spec fn spec_contact_data(&self, k: int) -> ContactData {
        let factor = self.normal_parts@[k].impulse.mul(self.spec_normal_impulse_sum().inv());
        ContactData {
            impulse: self.normal_parts@[k].impulse,
            tangent_impulse: [
                self.tangent_parts@[0].impulse.mul(factor),
                self.tangent_parts@[1].impulse.mul(factor),
            ],
        }
    }

    /// The tracked points of a manifold after the impulses of this constraint
    /// were written back to them.
    pub open spec fn spec_writeback_points(&self, points: Seq<TrackedContact>) -> Seq<
        TrackedContact,
    > {
        Seq::new(
            points.len(),
            |i: int|
                if self.manifold_contact_id <= i < self.manifold_contact_id + self.num_contacts {
                    TrackedContact { data: self.spec_contact_data(i - self.manifold_contact_id) }
                } else {
                    points[i]
                },
        )
    }

    /// Whether `after` is `before` with the impulses of this constraint
    /// written back: to its points, and the twist impulse to the manifold.
    pub open spec fn spec_written_back(
        &self,
        before: &ContactManifold,
        after: &ContactManifold,
    ) -> bool {
        &&& after.points@ == self.spec_writeback_points(before.points@)
        &&& after.data.twist_impulse == self.twist_part.impulse
        &&& after.data.body_pair == before.data.body_pair
        &&& after.data.normal == before.data.normal
        &&& after.data.solver_contacts@ == before.data.solver_contacts@
        &&& after.data.warmstart_multiplier == before.data.warmstart_multiplier
        &&& after.data.constraint_index == before.data.constraint_index
    }

    /// Adds to the slot of the solved body the change of velocity that the
    /// stored impulses cause.
    pub fn warmstart(&self, mj_lambdas: &mut [DeltaVel])
        requires
            self.mj_lambda2 < old(mj_lambdas)@.len(),
            self.num_contacts <= MAX_MANIFOLD_POINTS,
        ensures
            final(mj_lambdas)@ == old(mj_lambdas)@.update(
                self.mj_lambda2 as int,
                DeltaVel {
                    linear: old(mj_lambdas)@[self.mj_lambda2 as int].linear.add(
                        self.spec_warmstart_delta().linear,
                    ),
                    angular: old(mj_lambdas)@[self.mj_lambda2 as int].angular.add(
                        self.spec_warmstart_delta().angular,
                    ),
                },
            ),
    {
        let mut mj_lambda2 = DeltaVel::zero();
        let n = self.num_contacts as usize;
        let mut i: usize = 0;
        while i < n
            invariant
                i <= n <= MAX_MANIFOLD_POINTS,
                mj_lambda2 == self.spec_warmstart_normals(i as int),
            decreases n - i,
        {
            let elt = self.normal_parts[i];
            mj_lambda2 = mj_lambda2.apply(self.dir1, self.im2, elt.gcross2, elt.impulse);
            i += 1;
        }
        let tangents1 = self.dir1.orthonormal_basis();
        let mut j: usize = 0;
        while j < 2
            invariant
                j <= 2,
                tangents1 == self.dir1.orthonormal_basis(),
                j == 0 ==> mj_lambda2 == self.spec_warmstart_normals(self.num_contacts as int),
                j == 1 ==> mj_lambda2 == self.spec_warmstart_normals(self.num_contacts as int).apply(
                    tangents1@[0],
                    self.im2,
                    self.tangent_parts@[0].gcross2,
                    self.tangent_parts@[0].impulse,
                ),
                j == 2 ==> mj_lambda2 == self.spec_warmstart_normals(self.num_contacts as int).apply(
                    tangents1@[0],
                    self.im2,
                    self.tangent_parts@[0].gcross2,
                    self.tangent_parts@[0].impulse,
                ).apply(
                    tangents1@[1],
                    self.im2,
                    self.tangent_parts@[1].gcross2,
                    self.tangent_parts@[1].impulse,
                ),
            decreases 2 - j,
        {
            let elt = self.tangent_parts[j];
            mj_lambda2 = mj_lambda2.apply(tangents1[j], self.im2, elt.gcross2, elt.impulse);
            j += 1;
        }
        mj_lambda2 = mj_lambda2.apply_angular(self.twist_part.gcross2, self.twist_part.impulse);
        let slot = mj_lambdas[self.mj_lambda2];
        mj_lambdas[self.mj_lambda2] = DeltaVel {
            linear: slot.linear.add(mj_lambda2.linear),
            angular: slot.angular.add(mj_lambda2.angular),
        };
    }

    fn solve_tangent(&mut self, dv: DeltaVel, tangent: Vector, limit: Real, j: usize) -> (out:
        DeltaVel)
        requires
            j < 2,
            tangent == old(self).dir1.orthonormal_basis()@[j as int],
            limit == old(self).spec_friction_limit(),
        ensures
            (*final(self), out) == old(self).spec_solve_tangent(dv, j as int),
    {
        let elt = self.tangent_parts[j];
        let dimpulse = tangent.dot(dv.linear).neg().add(elt.gcross2.dot(dv.angular)).add(elt.rhs);
        let new_impulse = elt.impulse.sub(elt.r.mul(dimpulse)).clamp(limit.neg(), limit);
        let dlambda = new_impulse.sub(elt.impulse);
        self.tangent_parts[j].impulse = new_impulse;
        proof {
            assert(self.tangent_parts =~= old(self).spec_solve_tangent(dv, j as int).0.tangent_parts);
        }
        dv.apply(tangent, self.im2, elt.gcross2, dlambda)
    }

    fn solve_normal(&mut self, dv: DeltaVel, i: usize) -> (out: DeltaVel)
        requires
            i < MAX_MANIFOLD_POINTS,
        ensures
            (*final(self), out) == old(self).spec_solve_normal(dv, i as int),
    {
        let elt = self.normal_parts[i];
        let dimpulse = self.dir1.dot(dv.linear).neg().add(elt.gcross2.dot(dv.angular)).add(
            elt.rhs,
        );
        let new_impulse = elt.impulse.mul(self.impulse_scale).sub(elt.r.mul(dimpulse)).max(
            Real::zero(),
        );
        let dlambda = new_impulse.sub(elt.impulse);
        self.normal_parts[i].impulse = new_impulse;
        proof {
            assert(self.normal_parts =~= old(self).spec_solve_normal(dv, i as int).0.normal_parts);
        }
        dv.apply(self.dir1, self.im2, elt.gcross2, dlambda)
    }

    fn solve_twist(&mut self, dv: DeltaVel) -> (out: DeltaVel)
        ensures
            (*final(self), out) == old(self).spec_solve_twist(dv),
    {
        let twist_limit = self.limit.mul(
            self.normal_parts[0].impulse.mul(self.twist_weights[0]).add(
                self.normal_parts[1].impulse.mul(self.twist_weights[1]),
            ).add(self.normal_parts[2].impulse.mul(self.twist_weights[2])).add(
                self.normal_parts[3].impulse.mul(self.twist_weights[3]),
            ),
        );
        let elt = self.twist_part;
        let dimpulse = elt.gcross2.dot(dv.angular).add(elt.rhs);
        let new_impulse = elt.impulse.sub(elt.r.mul(dimpulse)).clamp(twist_limit.neg(), twist_limit);
        let dlambda = new_impulse.sub(elt.impulse);
        self.twist_part.impulse = new_impulse;
        dv.apply_angular(elt.gcross2, dlambda)
    }

    /// Runs one solver pass on the slot of the solved body: relaxes the two
    /// tangent elements, then the normal elements in use, then the twist.
    pub fn solve(&mut self, mj_lambdas: &mut [DeltaVel])
        requires
            old(self).mj_lambda2 < old(mj_lambdas)@.len(),
            old(self).num_contacts <= MAX_MANIFOLD_POINTS,
        ensures
            *final(self) == old(self).spec_solve(
                old(mj_lambdas)@[old(self).mj_lambda2 as int],
            ).0,
            final(mj_lambdas)@ == old(mj_lambdas)@.update(
                old(self).mj_lambda2 as int,
                old(self).spec_solve(old(mj_lambdas)@[old(self).mj_lambda2 as int]).1,
            ),
            old(self).same_setup(final(self)),
            old(self).wf() ==> final(self).wf(),
            forall|k: int|
                0 <= k < old(self).num_contacts ==> (#[trigger] final(self).normal_parts@[k]).impulse.raw
                    >= 0,
            old(self).spec_friction_limit().raw >= 0 ==> forall|j: int|
                0 <= j < 2 ==> -old(self).spec_friction_limit().raw <= (#[trigger] final(self).tangent_parts@[j]).impulse.raw <= old(self).spec_friction_limit().raw,
            old(self).wf() && old(self).friction_nonnegative() ==> -final(self).spec_twist_limit().raw <= final(self).twist_part.impulse.raw <= final(self).spec_twist_limit().raw,
    {
        let ghost initial_dv = mj_lambdas@[self.mj_lambda2 as int];
        proof {
            lemma_solve_keeps_setup(*old(self), initial_dv);
            lemma_solve_normal_impulses_nonnegative(*old(self), initial_dv);
            if old(self).spec_friction_limit().raw >= 0 {
                lemma_solve_tangent_impulses_within_friction(*old(self), initial_dv);
            }
            if old(self).wf() && old(self).friction_nonnegative() {
                lemma_solve_twist_impulse_within_limit(*old(self), initial_dv);
            }
        }
        let mut mj_lambda2 = mj_lambdas[self.mj_lambda2];
        let tangents1 = self.dir1.orthonormal_basis();
        let friction_limit = self.limit.mul(
            self.normal_parts[0].impulse.add(self.normal_parts[1].impulse).add(
                self.normal_parts[2].impulse,
            ).add(self.normal_parts[3].impulse),
        );
        let mut j: usize = 0;
        while j < 2
            invariant
                j <= 2,
                tangents1 == old(self).dir1.orthonormal_basis(),
                friction_limit == old(self).spec_friction_limit(),
                (*self, mj_lambda2) == old(self).spec_solve_tangents(initial_dv, j as int),
                self.dir1 == old(self).dir1,
                self.limit == old(self).limit,
                self.normal_parts == old(self).normal_parts,
                self.num_contacts == old(self).num_contacts,
                self.mj_lambda2 == old(self).mj_lambda2,
                mj_lambdas@ == old(mj_lambdas)@,
            decreases 2 - j,
        {
            mj_lambda2 = self.solve_tangent(mj_lambda2, tangents1[j], friction_limit, j);
            j += 1;
        }
        let ghost after_tangents = (*self, mj_lambda2);
        let n = self.num_contacts as usize;
        let mut i: usize = 0;
        while i < n
            invariant
                i <= n <= MAX_MANIFOLD_POINTS,
                n == old(self).num_contacts,
                self.mj_lambda2 == old(self).mj_lambda2,
                mj_lambdas@ == old(mj_lambdas)@,
                (*self, mj_lambda2) == after_tangents.0.spec_solve_normals(
                    after_tangents.1,
                    i as int,
                ),
            decreases n - i,
        {
            mj_lambda2 = self.solve_normal(mj_lambda2, i);
            i += 1;
        }
        mj_lambda2 = self.solve_twist(mj_lambda2);
        mj_lambdas[self.mj_lambda2] = mj_lambda2;
    }

    /// Stores the impulses of this constraint in its manifold, where the next
    /// step finds them: each normal impulse at its contact point, the tangent
    /// impulses shared out among the points, the twist impulse in the manifold.
    pub fn writeback_impulses(&self, manifolds_all: &mut [&mut ContactManifold])
        requires
            self.manifold_id < old(manifolds_all)@.len(),
            self.num_contacts <= MAX_MANIFOLD_POINTS,
            self.num_contacts > 0 ==> self.manifold_contact_id + self.num_contacts <= old(
                manifolds_all,
            )@[self.manifold_id as int].data.spec_num_active_contacts() <= old(
                manifolds_all,
            )@[self.manifold_id as int].points@.len(),
        ensures
            final(manifolds_all)@.len() == old(manifolds_all)@.len(),
            forall|i: int|
                0 <= i < old(manifolds_all)@.len() ==> *final(#[trigger] final(manifolds_all)@[i])
                    == *final(old(manifolds_all)@[i]),
            forall|i: int|
                0 <= i < old(manifolds_all)@.len() && i != self.manifold_id ==> *(
                #[trigger] final(manifolds_all)@[i]) == *old(manifolds_all)@[i],
            self.spec_written_back(
                old(manifolds_all)@[self.manifold_id as int],
                final(manifolds_all)@[self.manifold_id as int],
            ),
    {
        let k_base = self.manifold_contact_id;
        let denom = self.normal_parts[0].impulse.add(self.normal_parts[1].impulse).add(
            self.normal_parts[2].impulse,
        ).add(self.normal_parts[3].impulse).inv();
        let n = self.num_contacts as usize;
        let active = manifolds_all[self.manifold_id].data.num_active_contacts();
        let mut k: usize = 0;
        while k < n
            invariant
                k <= n <= MAX_MANIFOLD_POINTS,
                n == self.num_contacts,
                n > 0 ==> k_base + n <= active,
                k_base == self.manifold_contact_id,
                denom == self.spec_normal_impulse_sum().inv(),
                manifolds_all@.len() == old(manifolds_all)@.len(),
                self.manifold_id < manifolds_all@.len(),
                n > 0 ==> k_base + n <= old(manifolds_all)@[self.manifold_id as int].points@.len(),
                forall|i: int|
                    0 <= i < old(manifolds_all)@.len() ==> *final(#[trigger] manifolds_all@[i])
                        == *final(old(manifolds_all)@[i]),
                forall|i: int|
                    0 <= i < old(manifolds_all)@.len() && i != self.manifold_id ==> *(
                    #[trigger] manifolds_all@[i]) == *old(manifolds_all)@[i],
                manifolds_all@[self.manifold_id as int].data == old(
                    manifolds_all,
                )@[self.manifold_id as int].data,
                manifolds_all@[self.manifold_id as int].points@.len() == old(
                    manifolds_all,
                )@[self.manifold_id as int].points@.len(),
                forall|i: int|
                    0 <= i < manifolds_all@[self.manifold_id as int].points@.len()
                        ==> #[trigger] manifolds_all@[self.manifold_id as int].points@[i] == if k_base
                        <= i < k_base + k {
                        TrackedContact { data: self.spec_contact_data(i - k_base) }
                    } else {
                        old(manifolds_all)@[self.manifold_id as int].points@[i]
                    },
            decreases n - k,
        {
            let normal_factor = self.normal_parts[k].impulse.mul(denom);
            let data = ContactData {
                impulse: self.normal_parts[k].impulse,
                tangent_impulse: [
                    self.tangent_parts[0].impulse.mul(normal_factor),
                    self.tangent_parts[1].impulse.mul(normal_factor),
                ],
            };
            manifolds_all[self.manifold_id].points[k_base + k].data = data;
            k += 1;
        }
        manifolds_all[self.manifold_id].data.twist_impulse = self.twist_part.impulse;
        proof {
            assert(manifolds_all@[self.manifold_id as int].points@ =~= self.spec_writeback_points(
                old(manifolds_all)@[self.manifold_id as int].points@,
            ));
        }
    }
}

} // verus!
