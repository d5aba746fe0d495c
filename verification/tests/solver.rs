use rigid_core::dynamics::body::{DeltaVel, IntegrationParameters, RigidBody, RigidBodySet};
use rigid_core::dynamics::contact::{
    BodyPair, ContactData, ContactManifold, ContactManifoldData, SolverContact, TrackedContact,
};
use rigid_core::dynamics::ground_constraint::{
    AnyVelocityConstraint, ContactFrame, VelocityConstraintElementPart,
    VelocityGroundConstraintWithManifoldFriction,
};
use rigid_core::math::Real;
use rigid_core::vector::{AngularInertia, Vector};

fn fx(x: f64) -> Real {
    Real::from_raw((x * 4294967296.0).round() as i64)
}

fn float(x: Real) -> f64 {
    x.raw as f64 / 4294967296.0
}

fn vec3(x: f64, y: f64, z: f64) -> Vector {
    Vector::new(fx(x), fx(y), fx(z))
}

fn identity() -> AngularInertia {
    AngularInertia {
        m11: Real::one(),
        m12: Real::zero(),
        m13: Real::zero(),
        m22: Real::one(),
        m23: Real::zero(),
        m33: Real::one(),
    }
}

fn ground() -> RigidBody {
    RigidBody {
        dynamic: false,
        effective_inv_mass: Real::zero(),
        effective_world_inv_inertia_sqrt: AngularInertia {
            m11: Real::zero(),
            m12: Real::zero(),
            m13: Real::zero(),
            m22: Real::zero(),
            m23: Real::zero(),
            m33: Real::zero(),
        },
        linvel: Vector::zero(),
        angvel: Vector::zero(),
        world_com: Vector::zero(),
        island_offset: 0,
    }
}

fn falling(linvel: Vector, com: Vector, slot: usize) -> RigidBody {
    RigidBody {
        dynamic: true,
        effective_inv_mass: Real::one(),
        effective_world_inv_inertia_sqrt: identity(),
        linvel,
        angvel: Vector::zero(),
        world_com: com,
        island_offset: slot,
    }
}

fn step(dt: f64) -> IntegrationParameters {
    IntegrationParameters {
        dt: fx(dt),
        restitution_velocity_threshold: fx(1.0),
        warmstart_coeff: Real::one(),
        erp: fx(0.25),
        cfm: Real::zero(),
        impulse_scale: Real::one(),
    }
}

fn contact(point: Vector, dist: f64, friction: f64, restitution: f64, impulse: f64) -> SolverContact {
    SolverContact {
        point,
        dist: fx(dist),
        friction: fx(friction),
        restitution: fx(restitution),
        data: ContactData::new(fx(impulse), [Real::zero(), Real::zero()]),
    }
}

fn manifold(body1: usize, body2: usize, contacts: Vec<SolverContact>) -> ContactManifold {
    let points = contacts.iter().map(|c| TrackedContact { data: c.data }).collect();
    ContactManifold {
        points,
        data: ContactManifoldData {
            body_pair: BodyPair { body1, body2 },
            normal: vec3(0.0, 0.0, 1.0),
            solver_contacts: contacts,
            twist_impulse: Real::zero(),
            warmstart_multiplier: Real::one(),
            constraint_index: 0,
        },
    }
}

fn part(gcross2: Vector, rhs: f64, impulse: f64, r: f64) -> VelocityConstraintElementPart {
    VelocityConstraintElementPart { gcross2, rhs: fx(rhs), impulse: fx(impulse), r: fx(r) }
}

fn sample_constraint() -> VelocityGroundConstraintWithManifoldFriction {
    let zero = VelocityConstraintElementPart::zero();
    VelocityGroundConstraintWithManifoldFriction {
        dir1: vec3(0.0, 0.0, -1.0),
        im2: Real::one(),
        limit: fx(0.5),
        mj_lambda2: 1,
        manifold_id: 0,
        manifold_contact_id: 0,
        num_contacts: 1,
        normal_parts: [part(Vector::zero(), -2.0, 0.0, 1.0), zero, zero, zero],
        tangent_parts: [part(Vector::zero(), 1.0, 0.0, 1.0), part(Vector::zero(), -0.25, 0.0, 1.0)],
        twist_part: part(vec3(0.0, 0.0, 1.0), 0.5, 0.0, 1.0),
        twist_weights: [fx(2.0), Real::zero(), Real::zero(), Real::zero()],
        impulse_scale: Real::one(),
    }
}

fn unwrap(constraint: &AnyVelocityConstraint) -> VelocityGroundConstraintWithManifoldFriction {
    match constraint {
        AnyVelocityConstraint::NongroupedGround2(c) => *c,
        AnyVelocityConstraint::Empty => panic!("an empty slot"),
    }
}

fn scene(linvel: Vector) -> RigidBodySet {
    let mut bodies = RigidBodySet::new();
    bodies.insert(ground());
    bodies.insert(falling(linvel, vec3(0.0, 0.0, 0.5), 3));
    bodies
}

#[test]
fn zero_part_is_all_zero() {
    let zero = VelocityConstraintElementPart::zero();
    assert_eq!(zero.gcross2, Vector::zero());
    assert_eq!(zero.rhs, Real::zero());
    assert_eq!(zero.impulse, Real::zero());
    assert_eq!(zero.r, Real::zero());
}

#[test]
fn num_active_constraints_is_a_quarter_rounded_up() {
    let one = contact(Vector::zero(), 0.0, 0.5, 0.0, 0.0);
    for (points, constraints) in [(0, 0), (1, 1), (3, 1), (4, 1), (5, 2), (8, 2), (9, 3)] {
        let m = manifold(0, 1, vec![one; points]);
        assert_eq!(
            VelocityGroundConstraintWithManifoldFriction::num_active_constraints(&m),
            constraints
        );
    }
}

#[test]
fn body_set_hands_out_handles_in_order() {
    let mut bodies = RigidBodySet::new();
    assert_eq!(bodies.len(), 0);
    assert_eq!(bodies.insert(ground()), 0);
    assert_eq!(bodies.insert(falling(Vector::zero(), Vector::zero(), 5)), 1);
    assert_eq!(bodies.len(), 2);
    assert!(!bodies.get(0).is_dynamic());
    assert!(bodies.get(1).is_dynamic());
    assert_eq!(bodies.get(1).island_offset, 5);
}

#[test]
fn inv_dt_is_the_guarded_reciprocal() {
    assert_eq!(step(0.25).inv_dt(), fx(4.0));
    assert_eq!(step(0.0).inv_dt(), Real::zero());
}

#[test]
fn frame_puts_the_dynamic_body_second() {
    let bodies = scene(Vector::zero());
    let straight = ContactFrame::new(&step(0.25), &manifold(0, 1, Vec::new()), &bodies);
    assert!(!straight.rb1.dynamic && straight.rb2.dynamic);
    assert_eq!(straight.force_dir1, vec3(0.0, 0.0, -1.0));
    let flipped = ContactFrame::new(&step(0.25), &manifold(1, 0, Vec::new()), &bodies);
    assert!(!flipped.rb1.dynamic && flipped.rb2.dynamic);
    assert_eq!(flipped.force_dir1, vec3(0.0, 0.0, 1.0));
}

#[test]
fn frame_multiplies_the_warmstart_factors() {
    let bodies = scene(Vector::zero());
    let mut m = manifold(0, 1, Vec::new());
    m.data.warmstart_multiplier = fx(0.5);
    let mut params = step(0.25);
    params.warmstart_coeff = fx(0.5);
    assert_eq!(ContactFrame::new(&params, &m, &bodies).warmstart_coeff, fx(0.25));
}

#[test]
fn generate_computes_a_penetrating_contact() {
    let bodies = scene(vec3(0.0, 0.0, -2.0));
    let mut m = manifold(0, 1, vec![contact(Vector::zero(), -0.125, 0.5, 0.5, 3.0)]);
    m.data.twist_impulse = fx(0.75);
    let mut out = Vec::new();
    VelocityGroundConstraintWithManifoldFriction::generate(
        &step(0.25),
        7,
        &m,
        &bodies,
        &mut out,
        true,
    );
    assert_eq!(out.len(), 1);
    let c = unwrap(&out[0]);
    assert_eq!(c.dir1, vec3(0.0, 0.0, -1.0));
    assert_eq!(c.im2, Real::one());
    assert_eq!(c.limit, fx(0.5));
    assert_eq!(c.mj_lambda2, 3);
    assert_eq!(c.manifold_id, 7);
    assert_eq!(c.manifold_contact_id, 0);
    assert_eq!(c.num_contacts, 1);
    assert_eq!(c.impulse_scale, Real::one());
    assert_eq!(c.normal_parts[0].gcross2, Vector::zero());
    assert_eq!(c.normal_parts[0].r, Real::one());
    assert_eq!(c.normal_parts[0].rhs, fx(-3.03125));
    assert_eq!(c.normal_parts[0].impulse, fx(3.0));
    assert_eq!(c.tangent_parts[0].gcross2, vec3(0.0, 0.5, 0.0));
    assert_eq!(c.tangent_parts[0].r.raw, 3435973836);
    assert_eq!(c.tangent_parts[0].rhs, Real::zero());
    assert_eq!(c.tangent_parts[1].gcross2, vec3(0.5, 0.0, 0.0));
    assert_eq!(c.tangent_parts[1].rhs, Real::zero());
    assert_eq!(c.twist_part.gcross2, vec3(0.0, 0.0, 1.0));
    assert_eq!(c.twist_part.r, Real::one());
    assert_eq!(c.twist_part.rhs, Real::zero());
    assert_eq!(c.twist_part.impulse, fx(0.75));
    assert_eq!(c.twist_weights, [Real::zero(); 4]);
}

#[test]
fn generate_resolves_a_separated_contact_with_the_step() {
    let bodies = scene(vec3(0.0, 0.0, -0.5));
    let m = manifold(0, 1, vec![contact(Vector::zero(), 0.5, 0.5, 0.5, 0.0)]);
    let mut out = Vec::new();
    VelocityGroundConstraintWithManifoldFriction::generate(
        &step(0.25),
        0,
        &m,
        &bodies,
        &mut out,
        true,
    );
    let c = unwrap(&out[0]);
    assert_eq!(c.normal_parts[0].rhs, fx(1.5));
}

#[test]
fn generate_adds_no_restitution_at_the_threshold_speed() {
    let at_threshold = scene(vec3(0.0, 0.0, -1.0));
    let m = manifold(0, 1, vec![contact(Vector::zero(), 0.0, 0.5, 0.5, 0.0)]);
    let mut out = Vec::new();
    VelocityGroundConstraintWithManifoldFriction::generate(
        &step(0.25),
        0,
        &m,
        &at_threshold,
        &mut out,
        true,
    );
    assert_eq!(unwrap(&out[0]).normal_parts[0].rhs, fx(-1.0));

    let mut faster = RigidBodySet::new();
    faster.insert(ground());
    let mut body = falling(Vector::zero(), vec3(0.0, 0.0, 0.5), 3);
    body.linvel.z = Real::from_raw(fx(-1.0).raw - 1);
    faster.insert(body);
    let mut out = Vec::new();
    VelocityGroundConstraintWithManifoldFriction::generate(
        &step(0.25),
        0,
        &m,
        &faster,
        &mut out,
        true,
    );
    let approach = Real::from_raw(fx(-1.0).raw - 1);
    assert_eq!(
        unwrap(&out[0]).normal_parts[0].rhs,
        approach.add(fx(0.5).mul(approach))
    );
    assert_eq!(unwrap(&out[0]).normal_parts[0].rhs.raw, fx(-1.5).raw - 1);

    let slower = scene(vec3(0.0, 0.0, -0.5));
    let mut out = Vec::new();
    VelocityGroundConstraintWithManifoldFriction::generate(
        &step(0.25),
        0,
        &m,
        &slower,
        &mut out,
        true,
    );
    assert_eq!(unwrap(&out[0]).normal_parts[0].rhs, fx(-0.5));
}

#[test]
fn generate_guards_the_reciprocal_of_a_zero_mass() {
    let mut bodies = RigidBodySet::new();
    bodies.insert(ground());
    let mut still = ground();
    still.dynamic = true;
    bodies.insert(still);
    let m = manifold(0, 1, vec![contact(Vector::zero(), 0.0, 0.5, 0.0, 0.0)]);
    let mut out = Vec::new();
    VelocityGroundConstraintWithManifoldFriction::generate(
        &step(0.25),
        0,
        &m,
        &bodies,
        &mut out,
        true,
    );
    let c = unwrap(&out[0]);
    assert_eq!(c.normal_parts[0].r, Real::zero());
    assert_eq!(c.tangent_parts[0].r, Real::zero());
    assert_eq!(c.twist_part.r, Real::zero());
}

#[test]
fn generate_seeds_impulses_with_the_warmstart_coefficient() {
    let bodies = scene(Vector::zero());
    let mut first = contact(vec3(1.0, 0.0, 0.0), 0.0, 0.5, 0.0, 4.0);
    first.data.tangent_impulse = [fx(1.0), fx(-2.0)];
    let mut second = contact(vec3(-1.0, 0.0, 0.0), 0.0, 0.25, 0.0, 2.0);
    second.data.tangent_impulse = [fx(0.5), fx(1.0)];
    let mut m = manifold(0, 1, vec![first, second]);
    m.data.twist_impulse = fx(3.0);
    m.data.warmstart_multiplier = fx(0.5);
    let mut out = Vec::new();
    VelocityGroundConstraintWithManifoldFriction::generate(
        &step(0.25),
        0,
        &m,
        &bodies,
        &mut out,
        true,
    );
    let c = unwrap(&out[0]);
    assert_eq!(c.num_contacts, 2);
    assert_eq!(c.limit, fx(0.25));
    assert_eq!(c.normal_parts[0].impulse, fx(2.0));
    assert_eq!(c.normal_parts[1].impulse, fx(1.0));
    assert_eq!(c.tangent_parts[0].impulse, fx(0.75));
    assert_eq!(c.tangent_parts[1].impulse, fx(-0.5));
    assert_eq!(c.twist_part.impulse, fx(1.5));
    assert_eq!(c.twist_weights, [fx(1.0), fx(1.0), Real::zero(), Real::zero()]);
}

#[test]
fn generate_splits_the_points_into_constraints_of_four() {
    let bodies = scene(Vector::zero());
    let contacts: Vec<SolverContact> = (0..5)
        .map(|k| contact(vec3(k as f64, 0.0, 0.0), 0.0, 0.5, 0.0, (k + 1) as f64))
        .collect();
    let m = manifold(0, 1, contacts);
    let mut out = vec![AnyVelocityConstraint::Empty];
    VelocityGroundConstraintWithManifoldFriction::generate(
        &step(0.25),
        2,
        &m,
        &bodies,
        &mut out,
        true,
    );
    assert_eq!(out.len(), 3);
    assert!(matches!(out[0], AnyVelocityConstraint::Empty));
    let first = unwrap(&out[1]);
    let second = unwrap(&out[2]);
    assert_eq!(first.num_contacts, 4);
    assert_eq!(first.manifold_contact_id, 0);
    assert_eq!(second.num_contacts, 1);
    assert_eq!(second.manifold_contact_id, 4);
    assert_eq!(second.normal_parts[0].impulse, fx(5.0));
    for k in 1..4 {
        assert_eq!(second.normal_parts[k].impulse, Real::zero());
        assert_eq!(second.normal_parts[k].r, Real::zero());
        assert_eq!(second.twist_weights[k], Real::zero());
    }
    assert_eq!(first.twist_weights, [fx(1.5), fx(0.5), fx(0.5), fx(1.5)]);
}

#[test]
fn generate_overwrites_in_place() {
    let bodies = scene(Vector::zero());
    let contacts: Vec<SolverContact> =
        (0..6).map(|k| contact(Vector::zero(), 0.0, 0.5, 0.0, k as f64)).collect();
    let mut m = manifold(0, 1, contacts);
    m.data.constraint_index = 1;
    let mut out = vec![AnyVelocityConstraint::Empty; 4];
    VelocityGroundConstraintWithManifoldFriction::generate(
        &step(0.25),
        0,
        &m,
        &bodies,
        &mut out,
        false,
    );
    assert_eq!(out.len(), 4);
    assert!(matches!(out[0], AnyVelocityConstraint::Empty));
    assert_eq!(unwrap(&out[1]).num_contacts, 4);
    assert_eq!(unwrap(&out[2]).num_contacts, 2);
    assert_eq!(unwrap(&out[2]).manifold_contact_id, 4);
    assert!(matches!(out[3], AnyVelocityConstraint::Empty));
}

#[test]
fn generate_of_an_empty_manifold_adds_nothing() {
    let bodies = scene(Vector::zero());
    let m = manifold(0, 1, Vec::new());
    let mut out = Vec::new();
    VelocityGroundConstraintWithManifoldFriction::generate(
        &step(0.25),
        0,
        &m,
        &bodies,
        &mut out,
        true,
    );
    assert!(out.is_empty());
}

#[test]
fn delta_vel_applies_an_impulse() {
    let dv = DeltaVel::zero().apply(vec3(0.0, 0.0, -1.0), fx(0.5), vec3(1.0, 0.0, 0.0), fx(2.0));
    assert_eq!(dv.linear, vec3(0.0, 0.0, 1.0));
    assert_eq!(dv.angular, vec3(2.0, 0.0, 0.0));
    let spun = dv.apply_angular(vec3(0.0, 1.0, 0.0), fx(-3.0));
    assert_eq!(spun.linear, vec3(0.0, 0.0, 1.0));
    assert_eq!(spun.angular, vec3(2.0, -3.0, 0.0));
}

#[test]
fn warmstart_adds_the_effect_of_the_stored_impulses() {
    let mut c = sample_constraint();
    c.im2 = fx(0.5);
    c.num_contacts = 2;
    c.normal_parts[0] = part(vec3(1.0, 0.0, 0.0), 0.0, 2.0, 1.0);
    c.normal_parts[1] = part(vec3(0.0, 1.0, 0.0), 0.0, 4.0, 1.0);
    c.normal_parts[2] = part(vec3(9.0, 9.0, 9.0), 0.0, 8.0, 1.0);
    c.tangent_parts[0] = part(vec3(0.0, 0.0, 1.0), 0.0, 1.0, 1.0);
    c.tangent_parts[1] = part(Vector::zero(), 0.0, -2.0, 1.0);
    c.twist_part = part(vec3(0.0, 0.0, 1.0), 0.0, 0.5, 1.0);
    let before = c;
    let mut buffer = vec![DeltaVel::zero(); 3];
    buffer[1] = DeltaVel { linear: vec3(1.0, 1.0, 1.0), angular: vec3(-1.0, -1.0, -1.0) };
    c.warmstart(&mut buffer);
    assert_eq!(buffer[0], DeltaVel::zero());
    assert_eq!(buffer[2], DeltaVel::zero());
    assert_eq!(buffer[1].linear, vec3(0.5, 0.0, 4.0));
    assert_eq!(buffer[1].angular, vec3(1.0, 3.0, 0.5));
    assert_eq!(c.normal_parts[0].impulse, before.normal_parts[0].impulse);
    assert_eq!(c.twist_part.impulse, before.twist_part.impulse);
}

#[test]
fn solve_runs_friction_then_contact_then_twist() {
    let mut c = sample_constraint();
    let mut buffer = vec![DeltaVel::zero(); 2];
    c.solve(&mut buffer);
    assert_eq!(c.tangent_parts[0].impulse, Real::zero());
    assert_eq!(c.tangent_parts[1].impulse, Real::zero());
    assert_eq!(c.normal_parts[0].impulse, fx(2.0));
    assert_eq!(c.twist_part.impulse, fx(-0.5));
    assert_eq!(buffer[1].linear, vec3(0.0, 0.0, 2.0));
    assert_eq!(buffer[1].angular, vec3(0.0, 0.0, -0.5));
    assert_eq!(buffer[0], DeltaVel::zero());

    c.solve(&mut buffer);
    assert_eq!(c.tangent_parts[0].impulse, fx(-1.0));
    assert_eq!(c.tangent_parts[1].impulse, fx(0.25));
    assert_eq!(c.normal_parts[0].impulse, fx(2.0));
    assert_eq!(c.twist_part.impulse, fx(-0.5));
    assert_eq!(buffer[1].linear, vec3(1.0, 0.25, 2.0));
    assert_eq!(buffer[1].angular, vec3(0.0, 0.0, -0.5));
}

#[test]
fn solve_decays_the_normal_impulse_by_the_impulse_scale() {
    let mut c = sample_constraint();
    c.normal_parts[0] = part(Vector::zero(), 0.0, 4.0, 1.0);
    c.impulse_scale = fx(0.5);
    c.limit = Real::zero();
    let mut buffer = vec![DeltaVel::zero(); 2];
    c.solve(&mut buffer);
    assert_eq!(c.normal_parts[0].impulse, fx(2.0));
    assert_eq!(buffer[1].linear, vec3(0.0, 0.0, -2.0));
}

#[test]
fn solve_keeps_normal_impulses_from_falling_below_zero() {
    let mut c = sample_constraint();
    c.num_contacts = 4;
    c.normal_parts = [
        part(Vector::zero(), 5.0, 1.0, 1.0),
        part(Vector::zero(), -1.0, 0.0, 1.0),
        part(Vector::zero(), 100.0, 3.0, 0.5),
        part(Vector::zero(), 0.0, 0.0, 1.0),
    ];
    let mut buffer = vec![DeltaVel::zero(); 2];
    for _ in 0..10 {
        c.solve(&mut buffer);
        for k in 0..4 {
            assert!(c.normal_parts[k].impulse.raw >= 0);
        }
    }
    assert_eq!(c.normal_parts[2].impulse, Real::zero());
}

#[test]
fn solve_keeps_friction_within_its_limits() {
    let mut c = sample_constraint();
    c.tangent_parts = [part(Vector::zero(), 50.0, 0.0, 1.0), part(Vector::zero(), -50.0, 0.0, 1.0)];
    c.twist_part = part(vec3(0.0, 0.0, 1.0), 70.0, 0.0, 1.0);
    let mut buffer = vec![DeltaVel::zero(); 2];
    for _ in 0..6 {
        let limit_at_entry = c.limit.mul(
            c.normal_parts[0]
                .impulse
                .add(c.normal_parts[1].impulse)
                .add(c.normal_parts[2].impulse)
                .add(c.normal_parts[3].impulse),
        );
        c.solve(&mut buffer);
        let twist_limit = c.limit.mul(c.normal_parts[0].impulse.mul(c.twist_weights[0]));
        for j in 0..2 {
            assert!(c.tangent_parts[j].impulse.raw.abs() <= limit_at_entry.raw);
        }
        assert!(c.twist_part.impulse.raw.abs() <= twist_limit.raw);
    }
    assert_eq!(c.tangent_parts[0].impulse, fx(-1.0));
    assert_eq!(c.tangent_parts[1].impulse, fx(1.0));
    assert_eq!(c.twist_part.impulse, fx(-2.0));
}

#[test]
fn solve_leaves_unused_slots_zero() {
    let bodies = scene(vec3(0.0, 0.0, -1.0));
    let contacts = vec![
        contact(vec3(1.0, 0.0, 0.0), -0.125, 0.5, 0.0, 1.0),
        contact(vec3(-1.0, 0.0, 0.0), -0.125, 0.5, 0.0, 1.0),
    ];
    let mut m = manifold(0, 1, contacts);
    let mut out = Vec::new();
    VelocityGroundConstraintWithManifoldFriction::generate(
        &step(0.25),
        0,
        &m,
        &bodies,
        &mut out,
        true,
    );
    let mut c = unwrap(&out[0]);
    let zero = VelocityConstraintElementPart::zero();
    let mut buffer = vec![DeltaVel::zero(); 4];
    c.warmstart(&mut buffer);
    for _ in 0..8 {
        c.solve(&mut buffer);
        for k in 2..4 {
            assert_eq!(c.normal_parts[k].impulse, zero.impulse);
            assert_eq!(c.normal_parts[k].rhs, zero.rhs);
            assert_eq!(c.normal_parts[k].r, zero.r);
            assert_eq!(c.normal_parts[k].gcross2, zero.gcross2);
        }
    }
    c.writeback_impulses(&mut [&mut m]);
    assert_eq!(c.num_contacts, 2);
    assert_eq!(m.points.len(), 2);
    assert_eq!(m.points[0].data.impulse, c.normal_parts[0].impulse);
    assert_eq!(m.points[1].data.impulse, c.normal_parts[1].impulse);
}

#[test]
fn writeback_shares_the_tangent_impulses_out() {
    let mut c = sample_constraint();
    c.num_contacts = 2;
    c.manifold_id = 1;
    c.manifold_contact_id = 1;
    c.normal_parts[0] = part(Vector::zero(), 0.0, 1.0, 1.0);
    c.normal_parts[1] = part(Vector::zero(), 0.0, 3.0, 1.0);
    c.tangent_parts[0] = part(Vector::zero(), 0.0, 8.0, 1.0);
    c.tangent_parts[1] = part(Vector::zero(), 0.0, -4.0, 1.0);
    c.twist_part = part(Vector::zero(), 0.0, 0.625, 1.0);
    let stale = contact(Vector::zero(), 0.0, 0.5, 0.0, 9.0);
    let mut other = manifold(0, 1, vec![stale]);
    let mut target = manifold(0, 1, vec![stale; 4]);
    c.writeback_impulses(&mut [&mut other, &mut target]);
    assert_eq!(other.points[0].data.impulse, fx(9.0));
    assert_eq!(other.data.twist_impulse, Real::zero());
    assert_eq!(target.points[0].data.impulse, fx(9.0));
    assert_eq!(target.points[1].data.impulse, fx(1.0));
    assert_eq!(target.points[1].data.tangent_impulse, [fx(2.0), fx(-1.0)]);
    assert_eq!(target.points[2].data.impulse, fx(3.0));
    assert_eq!(target.points[2].data.tangent_impulse, [fx(6.0), fx(-3.0)]);
    assert_eq!(target.points[3].data.impulse, fx(9.0));
    assert_eq!(target.data.twist_impulse, fx(0.625));
    assert_eq!(target.data.solver_contacts.len(), 4);
    assert_eq!(target.data.solver_contacts[1].data.impulse, fx(9.0));
}

#[test]
fn writeback_guards_a_zero_sum_of_normal_impulses() {
    let mut c = sample_constraint();
    c.tangent_parts[0] = part(Vector::zero(), 0.0, 8.0, 1.0);
    c.tangent_parts[1] = part(Vector::zero(), 0.0, -4.0, 1.0);
    let mut target = manifold(0, 1, vec![contact(Vector::zero(), 0.0, 0.5, 0.0, 9.0)]);
    c.writeback_impulses(&mut [&mut target]);
    assert_eq!(target.points[0].data.impulse, Real::zero());
    assert_eq!(target.points[0].data.tangent_impulse, [Real::zero(), Real::zero()]);
}

#[test]
fn warmstart_then_writeback_reproduces_the_impulses() {
    let bodies = scene(Vector::zero());
    let contacts = vec![
        contact(vec3(1.0, 1.0, 0.0), 0.0, 0.5, 0.0, 1.5),
        contact(vec3(-1.0, 1.0, 0.0), 0.0, 0.5, 0.0, 2.5),
        contact(vec3(0.0, -1.0, 0.0), 0.0, 0.5, 0.0, 0.0),
    ];
    let mut m = manifold(0, 1, contacts);
    m.data.twist_impulse = fx(-0.375);
    let mut out = Vec::new();
    VelocityGroundConstraintWithManifoldFriction::generate(
        &step(0.25),
        0,
        &m,
        &bodies,
        &mut out,
        true,
    );
    let c = unwrap(&out[0]);
    let mut buffer = vec![DeltaVel::zero(); 4];
    c.warmstart(&mut buffer);
    for point in m.points.iter_mut() {
        point.data.impulse = fx(77.0);
    }
    m.data.twist_impulse = fx(77.0);
    c.writeback_impulses(&mut [&mut m]);
    assert_eq!(m.points[0].data.impulse, fx(1.5));
    assert_eq!(m.points[1].data.impulse, fx(2.5));
    assert_eq!(m.points[2].data.impulse, Real::zero());
    assert_eq!(m.data.twist_impulse, fx(-0.375));
}

#[test]
fn resting_body_converges_to_the_impulse_that_cancels_gravity() {
    let dt = 1.0 / 64.0;
    let gravity_speed = 9.8125 * dt;
    let bodies = scene(vec3(0.0, 0.0, -gravity_speed));
    let contacts = vec![
        contact(vec3(1.0, 1.0, 0.0), 0.0, 0.5, 0.0, 0.0),
        contact(vec3(-1.0, 1.0, 0.0), 0.0, 0.5, 0.0, 0.0),
        contact(vec3(-1.0, -1.0, 0.0), 0.0, 0.5, 0.0, 0.0),
        contact(vec3(1.0, -1.0, 0.0), 0.0, 0.5, 0.0, 0.0),
    ];
    let mut m = manifold(0, 1, contacts);
    let mut out = Vec::new();
    VelocityGroundConstraintWithManifoldFriction::generate(
        &step(dt),
        0,
        &m,
        &bodies,
        &mut out,
        true,
    );
    let mut c = unwrap(&out[0]);
    let mut buffer = vec![DeltaVel::zero(); 4];
    c.warmstart(&mut buffer);
    for _ in 0..200 {
        c.solve(&mut buffer);
    }
    let sum: f64 = c.normal_parts.iter().map(|p| float(p.impulse)).sum();
    assert!((sum - gravity_speed).abs() < 1.0e-6);
    assert!((float(buffer[3].linear.z) - gravity_speed).abs() < 1.0e-6);
    assert!(float(buffer[3].linear.x).abs() < 1.0e-6);
    assert!(float(buffer[3].linear.y).abs() < 1.0e-6);
    for k in 0..4 {
        assert!(c.normal_parts[k].impulse.raw >= 0);
    }
    assert!(float(c.tangent_parts[0].impulse).abs() < 1.0e-6);
    assert!(float(c.tangent_parts[1].impulse).abs() < 1.0e-6);
    c.writeback_impulses(&mut [&mut m]);
    let written: f64 = m.points.iter().map(|p| float(p.data.impulse)).sum();
    assert!((written - gravity_speed).abs() < 1.0e-6);
}

#[test]
fn solve_changes_nothing_at_rest() {
    let mut c = sample_constraint();
    c.normal_parts[0] = part(Vector::zero(), -2.0, 2.0, 1.0);
    c.tangent_parts = [part(Vector::zero(), 0.0, 0.5, 1.0), part(Vector::zero(), 0.0, -1.0, 1.0)];
    c.twist_part = part(vec3(0.0, 0.0, 1.0), 0.0, 1.5, 1.0);
    let before = c;
    let resting = DeltaVel { linear: vec3(0.0, 0.0, 2.0), angular: Vector::zero() };
    let mut buffer = vec![DeltaVel::zero(), resting];
    for _ in 0..5 {
        c.solve(&mut buffer);
        assert_eq!(buffer[1], resting);
        assert_eq!(c.normal_parts[0].impulse, before.normal_parts[0].impulse);
        assert_eq!(c.tangent_parts[0].impulse, before.tangent_parts[0].impulse);
        assert_eq!(c.tangent_parts[1].impulse, before.tangent_parts[1].impulse);
        assert_eq!(c.twist_part.impulse, before.twist_part.impulse);
    }
}
