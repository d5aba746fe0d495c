//! What holds of the impulses of a ground constraint after solver passes.

use crate::dynamics::body::{DeltaVel, IntegrationParameters};
use crate::dynamics::contact::{ContactManifold, ContactManifoldIndex};
use crate::dynamics::ground_constraint::{
    spec_chunk, spec_num_chunks, ContactFrame, VelocityConstraintElementPart,
    VelocityGroundConstraintWithManifoldFriction,
};
use crate::math::{
    lemma_add_nonnegative, lemma_add_zero, lemma_mul_nonnegative, lemma_mul_one, lemma_mul_zero,
    lemma_neg_exact, lemma_sqrt_nonnegative, lemma_sub_zero, Real, MAX_MANIFOLD_POINTS,
};
use crate::vector::Vector;
use vstd::prelude::*;

verus! {

impl VelocityGroundConstraintWithManifoldFriction {
    /// Whether `other` differs from `self` at most in the impulses of its
    /// elements.
    pub open spec fn same_setup(&self, other: &Self) -> bool {
        &&& other.dir1 == self.dir1
        &&& other.im2 == self.im2
        &&& other.limit == self.limit
        &&& other.mj_lambda2 == self.mj_lambda2
        &&& other.manifold_id == self.manifold_id
        &&& other.manifold_contact_id == self.manifold_contact_id
        &&& other.num_contacts == self.num_contacts
        &&& other.twist_weights == self.twist_weights
        &&& other.impulse_scale == self.impulse_scale
    }

    /// No normal element carries a negative impulse.
    pub open spec fn normal_impulses_nonnegative(&self) -> bool {
        forall|k: int|
            0 <= k < MAX_MANIFOLD_POINTS ==> (#[trigger] self.normal_parts@[k]).impulse.raw >= 0
    }

    /// The friction coefficient and the twist weights are not negative.
    pub open spec fn friction_nonnegative(&self) -> bool {
        &&& self.limit.raw >= 0
        &&& forall|k: int| 0 <= k < MAX_MANIFOLD_POINTS ==> (#[trigger] self.twist_weights@[k]).raw >= 0
    }

    /// Sum of the impulses of the first `n` normal elements.
    pub open spec fn spec_impulse_sum_upto(&self, n: int) -> Real
        decreases n,
    {
        if n <= 0 {
            Real::zero()
        } else {
            self.spec_impulse_sum_upto(n - 1).add(self.normal_parts@[n - 1].impulse)
        }
    }

    /// Sum of the impulses of the first `n` normal elements, each times its
    /// twist weight.
    pub open spec fn spec_weighted_sum_upto(&self, n: int) -> Real
        decreases n,
    {
        if n <= 0 {
            Real::zero()
        } else {
            self.spec_weighted_sum_upto(n - 1).add(
                self.normal_parts@[n - 1].impulse.mul(self.twist_weights@[n - 1]),
            )
        }
    }

    /// Whether the constraint is at rest under the change of velocity `dv`:
    /// no element has velocity left to remove, no normal impulse in use is
    /// negative or decays, and the friction impulses lie within their limits.
    pub open spec fn spec_at_rest(&self, dv: DeltaVel) -> bool {
        let tangents = self.dir1.orthonormal_basis();
        &&& self.num_contacts <= MAX_MANIFOLD_POINTS
        &&& self.impulse_scale == Real::one()
        &&& forall|k: int|
            0 <= k < self.num_contacts ==> (#[trigger] self.normal_parts@[k]).impulse.raw >= 0
                && Self::spec_residual(self.dir1, self.normal_parts@[k], dv) == Real::zero()
        &&& forall|j: int|
            0 <= j < 2 ==> Self::spec_residual(tangents@[j], #[trigger] self.tangent_parts@[j], dv)
                == Real::zero() && -self.spec_friction_limit().raw
                <= self.tangent_parts@[j].impulse.raw <= self.spec_friction_limit().raw
        &&& self.twist_part.gcross2.dot(dv.angular).add(self.twist_part.rhs) == Real::zero()
        &&& -self.spec_twist_limit().raw <= self.twist_part.impulse.raw
            <= self.spec_twist_limit().raw
    }

    /// The constraint and the change of velocity after `n` solver passes.
    pub open spec fn spec_solve_repeated(self, dv: DeltaVel, n: nat) -> (Self, DeltaVel)
        decreases n,
    {
        if n == 0 {
            (self, dv)
        } else {
            let before = self.spec_solve_repeated(dv, (n - 1) as nat);
            before.0.spec_solve(before.1)
        }
    }
}

/// The two limits sum over all four slots, but the unused slots of a
/// well-formed constraint add nothing: each limit is the friction coefficient
/// times the sum over the contact points of the constraint alone.
pub proof fn lemma_limits_sum_over_contacts(c: VelocityGroundConstraintWithManifoldFriction)
    requires
        c.wf(),
    ensures
        c.spec_friction_limit() == c.limit.mul(c.spec_impulse_sum_upto(c.num_contacts as int)),
        c.spec_twist_limit() == c.limit.mul(c.spec_weighted_sum_upto(c.num_contacts as int)),
{
    let p = c.normal_parts@;
    let w = c.twist_weights@;
    let zero = Real::zero();
    assert forall|k: int| c.num_contacts <= k < MAX_MANIFOLD_POINTS implies p[k].impulse == zero
        && p[k].impulse.mul(w[k]) == zero by {
        assert(p[k] == VelocityConstraintElementPart::zero());
        lemma_mul_zero(w[k]);
    }
    lemma_add_zero(p[0].impulse);
    lemma_add_zero(p[0].impulse.add(p[1].impulse));
    lemma_add_zero(p[0].impulse.add(p[1].impulse).add(p[2].impulse));
    lemma_add_zero(zero);
    let s0 = p[0].impulse.mul(w[0]);
    let s1 = s0.add(p[1].impulse.mul(w[1]));
    let s2 = s1.add(p[2].impulse.mul(w[2]));
    lemma_add_zero(s0);
    lemma_add_zero(s1);
    lemma_add_zero(s2);
    assert(c.spec_impulse_sum_upto(0) == zero);
    assert(c.spec_impulse_sum_upto(1) == p[0].impulse);
    assert(c.spec_impulse_sum_upto(2) == p[0].impulse.add(p[1].impulse));
    assert(c.spec_impulse_sum_upto(3) == p[0].impulse.add(p[1].impulse).add(p[2].impulse));
    assert(c.spec_impulse_sum_upto(4) == c.spec_normal_impulse_sum());
    assert(c.spec_weighted_sum_upto(0) == zero);
    assert(c.spec_weighted_sum_upto(1) == s0);
    assert(c.spec_weighted_sum_upto(2) == s1);
    assert(c.spec_weighted_sum_upto(3) == s2);
    assert(c.spec_weighted_sum_upto(4) == s2.add(p[3].impulse.mul(w[3])));
}

/// Relaxing the first `n` tangent elements touches nothing but their
/// impulses, and leaves each of them within the friction limit that held
/// before, where that limit is not negative.
pub proof fn lemma_solve_tangents(c: VelocityGroundConstraintWithManifoldFriction, dv: DeltaVel, n: int)
    requires
        0 <= n <= 2,
    ensures
        ({
            let after = c.spec_solve_tangents(dv, n).0;
            let limit = c.spec_friction_limit();
            &&& c.same_setup(&after)
            &&& after.normal_parts == c.normal_parts
            &&& after.twist_part == c.twist_part
            &&& forall|j: int| n <= j < 2 ==> after.tangent_parts@[j] == c.tangent_parts@[j]
            &&& limit.raw >= 0 ==> forall|j: int|
                0 <= j < n ==> -limit.raw <= (#[trigger] after.tangent_parts@[j]).impulse.raw
                    <= limit.raw
        }),
    decreases n,
{
    if n > 0 {
        lemma_solve_tangents(c, dv, n - 1);
        let limit = c.spec_friction_limit();
        if limit.raw >= 0 {
            lemma_neg_exact(limit);
        }
    }
}

/// Relaxing the first `n` normal elements touches nothing but their impulses,
/// none of which is negative afterwards.
pub proof fn lemma_solve_normals(c: VelocityGroundConstraintWithManifoldFriction, dv: DeltaVel, n: int)
    requires
        0 <= n <= MAX_MANIFOLD_POINTS,
    ensures
        ({
            let after = c.spec_solve_normals(dv, n).0;
            &&& c.same_setup(&after)
            &&& after.tangent_parts == c.tangent_parts
            &&& after.twist_part == c.twist_part
            &&& forall|k: int|
                n <= k < MAX_MANIFOLD_POINTS ==> after.normal_parts@[k] == c.normal_parts@[k]
            &&& forall|k: int| 0 <= k < n ==> (#[trigger] after.normal_parts@[k]).impulse.raw >= 0
        }),
    decreases n,
{
    if n > 0 {
        lemma_solve_normals(c, dv, n - 1);
    }
}

/// A solver pass touches nothing but impulses and keeps unused slots zero.
pub proof fn lemma_solve_keeps_setup(c: VelocityGroundConstraintWithManifoldFriction, dv: DeltaVel)
    requires
        c.num_contacts <= MAX_MANIFOLD_POINTS,
    ensures
        c.same_setup(&c.spec_solve(dv).0),
        c.wf() ==> c.spec_solve(dv).0.wf(),
        forall|k: int|
            c.num_contacts <= k < MAX_MANIFOLD_POINTS ==> c.spec_solve(dv).0.normal_parts@[k]
                == c.normal_parts@[k],
{
    lemma_solve_tangents(c, dv, 2);
    let t = c.spec_solve_tangents(dv, 2);
    lemma_solve_normals(t.0, t.1, c.num_contacts as int);
}

/// After a solver pass, no normal element in use carries a negative impulse.
pub proof fn lemma_solve_normal_impulses_nonnegative(
    c: VelocityGroundConstraintWithManifoldFriction,
    dv: DeltaVel,
)
    requires
        c.num_contacts <= MAX_MANIFOLD_POINTS,
    ensures
        forall|k: int|
            0 <= k < c.num_contacts ==> (#[trigger] c.spec_solve(dv).0.normal_parts@[k]).impulse.raw
                >= 0,
        c.wf() ==> c.spec_solve(dv).0.normal_impulses_nonnegative(),
{
    lemma_solve_tangents(c, dv, 2);
    let t = c.spec_solve_tangents(dv, 2);
    lemma_solve_normals(t.0, t.1, c.num_contacts as int);
}

/// After any number of solver passes, at least one, no normal element of a
/// well-formed constraint carries a negative impulse, and its unused slots
/// are still zero.
pub proof fn lemma_repeated_solve_normal_impulses_nonnegative(
    c: VelocityGroundConstraintWithManifoldFriction,
    dv: DeltaVel,
    n: nat,
)
    requires
        c.wf(),
    ensures
        c.spec_solve_repeated(dv, n).0.wf(),
        c.same_setup(&c.spec_solve_repeated(dv, n).0),
        n >= 1 ==> c.spec_solve_repeated(dv, n).0.normal_impulses_nonnegative(),
    decreases n,
{
    if n > 0 {
        lemma_repeated_solve_normal_impulses_nonnegative(c, dv, (n - 1) as nat);
        let before = c.spec_solve_repeated(dv, (n - 1) as nat);
        lemma_solve_keeps_setup(before.0, before.1);
        lemma_solve_normal_impulses_nonnegative(before.0, before.1);
    }
}

/// The two limits are not negative where the friction coefficient, the twist
/// weights and the normal impulses are not.
pub proof fn lemma_limits_nonnegative(c: VelocityGroundConstraintWithManifoldFriction)
    requires
        c.friction_nonnegative(),
        c.normal_impulses_nonnegative(),
    ensures
        c.spec_friction_limit().raw >= 0,
        c.spec_twist_limit().raw >= 0,
{
    let p = c.normal_parts@;
    let w = c.twist_weights@;
    assert(p[0].impulse.raw >= 0 && p[1].impulse.raw >= 0 && p[2].impulse.raw >= 0
        && p[3].impulse.raw >= 0);
    assert(w[0].raw >= 0 && w[1].raw >= 0 && w[2].raw >= 0 && w[3].raw >= 0);
    lemma_add_nonnegative(p[0].impulse, p[1].impulse);
    lemma_add_nonnegative(p[0].impulse.add(p[1].impulse), p[2].impulse);
    lemma_add_nonnegative(p[0].impulse.add(p[1].impulse).add(p[2].impulse), p[3].impulse);
    lemma_mul_nonnegative(c.limit, c.spec_normal_impulse_sum());
    lemma_mul_nonnegative(p[0].impulse, w[0]);
    lemma_mul_nonnegative(p[1].impulse, w[1]);
    lemma_mul_nonnegative(p[2].impulse, w[2]);
    lemma_mul_nonnegative(p[3].impulse, w[3]);
    let s0 = p[0].impulse.mul(w[0]);
    let s1 = s0.add(p[1].impulse.mul(w[1]));
    let s2 = s1.add(p[2].impulse.mul(w[2]));
    lemma_add_nonnegative(s0, p[1].impulse.mul(w[1]));
    lemma_add_nonnegative(s1, p[2].impulse.mul(w[2]));
    lemma_add_nonnegative(s2, p[3].impulse.mul(w[3]));
    lemma_mul_nonnegative(c.limit, s2.add(p[3].impulse.mul(w[3])));
}

/// After a solver pass each tangent impulse lies within the friction limit
/// that held when the pass began: the friction coefficient times the sum of
/// the normal impulses of that moment.
pub proof fn lemma_solve_tangent_impulses_within_friction(
    c: VelocityGroundConstraintWithManifoldFriction,
    dv: DeltaVel,
)
    requires
        c.num_contacts <= MAX_MANIFOLD_POINTS,
        c.spec_friction_limit().raw >= 0,
    ensures
        forall|j: int|
            0 <= j < 2 ==> -c.spec_friction_limit().raw <= (#[trigger] c.spec_solve(
                dv,
            ).0.tangent_parts@[j]).impulse.raw <= c.spec_friction_limit().raw,
{
    lemma_solve_tangents(c, dv, 2);
    let t = c.spec_solve_tangents(dv, 2);
    lemma_solve_normals(t.0, t.1, c.num_contacts as int);
}

/// After a solver pass the twist impulse lies within the twist limit of the
/// constraint as the pass leaves it: the friction coefficient times the sum of
/// the normal impulses, each weighted by its twist weight.
pub proof fn lemma_solve_twist_impulse_within_limit(
    c: VelocityGroundConstraintWithManifoldFriction,
    dv: DeltaVel,
)
    requires
        c.wf(),
        c.friction_nonnegative(),
    ensures
        c.spec_solve(dv).0.spec_twist_limit().raw >= 0,
        -c.spec_solve(dv).0.spec_twist_limit().raw <= c.spec_solve(dv).0.twist_part.impulse.raw
            <= c.spec_solve(dv).0.spec_twist_limit().raw,
{
    lemma_solve_tangents(c, dv, 2);
    let t = c.spec_solve_tangents(dv, 2);
    lemma_solve_normals(t.0, t.1, c.num_contacts as int);
    let n = t.0.spec_solve_normals(t.1, c.num_contacts as int);
    lemma_solve_normal_impulses_nonnegative(c, dv);
    assert(n.0.normal_impulses_nonnegative()) by {
        assert forall|k: int| 0 <= k < MAX_MANIFOLD_POINTS implies (#[trigger] n.0.normal_parts@[k]).impulse.raw
            >= 0 by {
            if k >= c.num_contacts {
                assert(n.0.normal_parts@[k] == c.normal_parts@[k]);
            }
        }
    }
    lemma_limits_nonnegative(n.0);
    lemma_neg_exact(n.0.spec_twist_limit());
    let after = c.spec_solve(dv).0;
    assert(after.spec_twist_limit() == n.0.spec_twist_limit());
}

/// After a solver pass on a well-formed constraint whose normal impulses,
/// friction coefficient and twist weights are not negative, each tangent
/// impulse also lies within the friction limit of the constraint as the pass
/// leaves it, provided the pass did not lower that limit.
pub proof fn lemma_solve_respects_friction(
    c: VelocityGroundConstraintWithManifoldFriction,
    dv: DeltaVel,
)
    requires
        c.wf(),
        c.friction_nonnegative(),
        c.normal_impulses_nonnegative(),
        c.spec_friction_limit().raw <= c.spec_solve(dv).0.spec_friction_limit().raw,
    ensures
        forall|j: int|
            0 <= j < 2 ==> -c.spec_solve(dv).0.spec_friction_limit().raw <= (#[trigger] c.spec_solve(
                dv,
            ).0.tangent_parts@[j]).impulse.raw <= c.spec_solve(dv).0.spec_friction_limit().raw,
        -c.spec_solve(dv).0.spec_twist_limit().raw <= c.spec_solve(dv).0.twist_part.impulse.raw
            <= c.spec_solve(dv).0.spec_twist_limit().raw,
{
    lemma_limits_nonnegative(c);
    lemma_solve_tangent_impulses_within_friction(c, dv);
    lemma_solve_twist_impulse_within_limit(c, dv);
}

/// Warm-starting reads the constraint and changes none of its impulses, so
/// writing back right after it hands each contact point the normal impulse,
/// and the manifold the twist impulse, that the constraint started with.
pub proof fn lemma_warmstart_writeback_keeps_impulses(
    c: VelocityGroundConstraintWithManifoldFriction,
    before: ContactManifold,
    after: ContactManifold,
    k: int,
)
    requires
        c.spec_written_back(&before, &after),
        0 <= k < c.num_contacts,
        c.manifold_contact_id + c.num_contacts <= before.points@.len(),
    ensures
        after.points@[c.manifold_contact_id + k].data.impulse == c.normal_parts@[k].impulse,
        after.data.twist_impulse == c.twist_part.impulse,
{
}

/// Every constraint that is generated is well formed, holds at least one
/// contact point, and has twist weights that are not negative.
pub proof fn lemma_generated_wf(
    frame: ContactFrame,
    params: IntegrationParameters,
    manifold_id: ContactManifoldIndex,
    manifold: ContactManifold,
    l: int,
)
    requires
        0 <= l < spec_num_chunks(manifold.data.solver_contacts@.len()),
    ensures
        ({
            let c = VelocityGroundConstraintWithManifoldFriction::spec_generate_chunk(
                &frame,
                &params,
                manifold_id,
                &manifold,
                l,
            );
            &&& c.wf()
            &&& 1 <= c.num_contacts == spec_chunk(manifold.data.solver_contacts@, l).len()
            &&& forall|k: int|
                0 <= k < MAX_MANIFOLD_POINTS ==> (#[trigger] c.twist_weights@[k]).raw >= 0
        }),
{
    reveal(VelocityGroundConstraintWithManifoldFriction::spec_generate_chunk);
    let points = spec_chunk(manifold.data.solver_contacts@, l);
    assert forall|k: int| 0 <= k < points.len() implies (
    #[trigger] VelocityGroundConstraintWithManifoldFriction::spec_twist_weight(points, k)).raw
        >= 0 by {
        let d = points[k].point.sub(
            crate::dynamics::ground_constraint::spec_center(points, points.len() as int),
        ).norm_squared();
        lemma_sqrt_nonnegative(d);
    }
}

/// With a warm-start coefficient of one, a generated constraint starts with
/// the normal impulses that its contact points kept from the previous step,
/// and with the twist impulse of its manifold.
pub proof fn lemma_generated_keeps_persisted_impulses(
    frame: ContactFrame,
    params: IntegrationParameters,
    manifold_id: ContactManifoldIndex,
    manifold: ContactManifold,
    l: int,
    k: int,
)
    requires
        0 <= l < spec_num_chunks(manifold.data.solver_contacts@.len()),
        0 <= k < spec_chunk(manifold.data.solver_contacts@, l).len(),
        frame.warmstart_coeff == Real::one(),
    ensures
        ({
            let c = VelocityGroundConstraintWithManifoldFriction::spec_generate_chunk(
                &frame,
                &params,
                manifold_id,
                &manifold,
                l,
            );
            &&& c.normal_parts@[k].impulse == manifold.data.solver_contacts@[4 * l + k].data.impulse
            &&& c.twist_part.impulse == manifold.data.twist_impulse
        }),
{
    reveal(VelocityGroundConstraintWithManifoldFriction::spec_generate_chunk);
    lemma_mul_one(manifold.data.solver_contacts@[4 * l + k].data.impulse);
    lemma_mul_one(manifold.data.twist_impulse);
}

/// An impulse of size zero changes no velocity.
pub proof fn lemma_apply_nothing(dv: DeltaVel, dir: Vector, im2: Real, gcross2: Vector)
    ensures
        dv.apply(dir, im2, gcross2, Real::zero()) == dv,
        dv.apply_angular(gcross2, Real::zero()) == dv,
{
    lemma_mul_zero(im2.neg());
    lemma_mul_zero(dir.x);
    lemma_mul_zero(dir.y);
    lemma_mul_zero(dir.z);
    lemma_mul_zero(gcross2.x);
    lemma_mul_zero(gcross2.y);
    lemma_mul_zero(gcross2.z);
    lemma_add_zero(dv.linear.x);
    lemma_add_zero(dv.linear.y);
    lemma_add_zero(dv.linear.z);
    lemma_add_zero(dv.angular.x);
    lemma_add_zero(dv.angular.y);
    lemma_add_zero(dv.angular.z);
}

/// Relaxing the first `n` tangent elements of a constraint at rest changes
/// nothing.
pub proof fn lemma_solve_tangents_at_rest(
    c: VelocityGroundConstraintWithManifoldFriction,
    dv: DeltaVel,
    n: int,
)
    requires
        c.spec_at_rest(dv),
        0 <= n <= 2,
    ensures
        c.spec_solve_tangents(dv, n) == (c, dv),
    decreases n,
{
    if n > 0 {
        lemma_solve_tangents_at_rest(c, dv, n - 1);
        let j = n - 1;
        let tangent = c.dir1.orthonormal_basis()@[j];
        let elt = c.tangent_parts@[j];
        let limit = c.spec_friction_limit();
        lemma_mul_zero(elt.r);
        lemma_sub_zero(elt.impulse);
        lemma_neg_exact(limit);
        lemma_apply_nothing(dv, tangent, c.im2, elt.gcross2);
        let after = c.spec_solve_tangent(dv, j);
        assert(after.0.tangent_parts =~= c.tangent_parts);
    }
}

/// Relaxing the first `n` normal elements of a constraint at rest changes
/// nothing.
pub proof fn lemma_solve_normals_at_rest(
    c: VelocityGroundConstraintWithManifoldFriction,
    dv: DeltaVel,
    n: int,
)
    requires
        c.spec_at_rest(dv),
        0 <= n <= c.num_contacts,
    ensures
        c.spec_solve_normals(dv, n) == (c, dv),
    decreases n,
{
    if n > 0 {
        lemma_solve_normals_at_rest(c, dv, n - 1);
        let i = n - 1;
        let elt = c.normal_parts@[i];
        lemma_mul_zero(elt.r);
        lemma_mul_one(elt.impulse);
        lemma_sub_zero(elt.impulse);
        lemma_apply_nothing(dv, c.dir1, c.im2, elt.gcross2);
        let after = c.spec_solve_normal(dv, i);
        assert(after.0.normal_parts =~= c.normal_parts);
    }
}

/// A solver pass on a constraint at rest changes neither the constraint nor
/// the change of velocity, and so does any number of passes. In particular,
/// once the impulses of a resting body cancel the velocity that gravity adds
/// in a step, further passes keep them.
pub proof fn lemma_solve_at_rest(
    c: VelocityGroundConstraintWithManifoldFriction,
    dv: DeltaVel,
    n: nat,
)
    requires
        c.spec_at_rest(dv),
    ensures
        c.spec_solve(dv) == (c, dv),
        c.spec_solve_repeated(dv, n) == (c, dv),
    decreases n,
{
    lemma_solve_tangents_at_rest(c, dv, 2);
    lemma_solve_normals_at_rest(c, dv, c.num_contacts as int);
    let elt = c.twist_part;
    lemma_mul_zero(elt.r);
    lemma_sub_zero(elt.impulse);
    if c.spec_twist_limit().raw >= 0 {
        lemma_neg_exact(c.spec_twist_limit());
    }
    lemma_apply_nothing(dv, c.dir1, c.im2, elt.gcross2);
    if n > 0 {
        lemma_solve_at_rest(c, dv, (n - 1) as nat);
    }
}

} // verus!
