use rigid_core::math::{Real, DIM, MAX_MANIFOLD_POINTS, ONE_RAW};
use rigid_core::vector::{AngularInertia, Vector};

fn fx(x: f64) -> Real {
    Real::from_raw((x * 4294967296.0).round() as i64)
}

fn vec3(x: f64, y: f64, z: f64) -> Vector {
    Vector::new(fx(x), fx(y), fx(z))
}

#[test]
fn constants_have_their_values() {
    assert_eq!(DIM, 3);
    assert_eq!(MAX_MANIFOLD_POINTS, 4);
    assert_eq!(ONE_RAW, 1i64 << 32);
    assert_eq!(Real::one().raw, 1i64 << 32);
    assert_eq!(Real::zero().raw, 0);
    assert_eq!(Real::min_value().raw, i64::MIN);
    assert_eq!(Real::max_value().raw, i64::MAX);
}

#[test]
fn from_usize_scales_and_saturates() {
    assert_eq!(Real::from_usize(0), Real::zero());
    assert_eq!(Real::from_usize(3).raw, 3i64 << 32);
    assert_eq!(Real::from_usize(0x7fff_ffff).raw, 0x7fff_ffffi64 << 32);
    assert_eq!(Real::from_usize(0x8000_0000).raw, i64::MAX);
}

#[test]
fn add_and_sub_are_exact_in_range() {
    assert_eq!(fx(1.5).add(fx(2.25)), fx(3.75));
    assert_eq!(fx(1.5).sub(fx(2.25)), fx(-0.75));
    assert_eq!(fx(-4.0).add(fx(4.0)), Real::zero());
}

#[test]
fn add_and_sub_saturate() {
    assert_eq!(Real::max_value().add(Real::from_raw(1)), Real::max_value());
    assert_eq!(Real::min_value().add(Real::from_raw(-1)), Real::min_value());
    assert_eq!(Real::max_value().sub(Real::from_raw(-1)), Real::max_value());
    assert_eq!(Real::min_value().sub(Real::from_raw(1)), Real::min_value());
    assert_eq!(Real::max_value().add(Real::min_value()).raw, -1);
}

#[test]
fn neg_is_exact_but_for_the_smallest_number() {
    assert_eq!(fx(2.5).neg(), fx(-2.5));
    assert_eq!(Real::zero().neg(), Real::zero());
    assert_eq!(Real::max_value().neg().raw, i64::MIN + 1);
    assert_eq!(Real::min_value().neg(), Real::max_value());
}

#[test]
fn mul_gives_exact_products() {
    assert_eq!(fx(3.0).mul(fx(-2.0)), fx(-6.0));
    assert_eq!(fx(0.5).mul(fx(0.5)), fx(0.25));
    assert_eq!(fx(-1.5).mul(fx(-4.0)), fx(6.0));
    assert_eq!(fx(7.25).mul(Real::one()), fx(7.25));
    assert_eq!(fx(7.25).mul(Real::zero()), Real::zero());
}

#[test]
fn mul_rounds_toward_zero() {
    assert_eq!(Real::from_raw(1).mul(Real::from_raw(1)).raw, 0);
    assert_eq!(Real::from_raw(-1).mul(Real::from_raw(1)).raw, 0);
    assert_eq!(Real::from_raw(3).mul(fx(0.5)).raw, 1);
    assert_eq!(Real::from_raw(-3).mul(fx(0.5)).raw, -1);
}

#[test]
fn mul_saturates() {
    assert_eq!(Real::max_value().mul(fx(2.0)), Real::max_value());
    assert_eq!(Real::min_value().mul(fx(2.0)), Real::min_value());
    assert_eq!(Real::min_value().mul(fx(-1.0)), Real::max_value());
    assert_eq!(Real::max_value().mul(fx(-2.0)), Real::min_value());
}

#[test]
fn div_gives_exact_quotients() {
    assert_eq!(Real::one().div(fx(4.0)), fx(0.25));
    assert_eq!(fx(7.0).div(fx(2.0)), fx(3.5));
    assert_eq!(fx(-7.0).div(fx(2.0)), fx(-3.5));
    assert_eq!(fx(7.0).div(fx(-2.0)), fx(-3.5));
    assert_eq!(fx(-7.0).div(fx(-2.0)), fx(3.5));
    assert_eq!(Real::one().div(fx(3.0)).raw, 1431655765);
    assert_eq!(Real::one().neg().div(fx(3.0)).raw, -1431655765);
}

#[test]
fn div_by_zero_is_zero() {
    assert_eq!(fx(5.0).div(Real::zero()), Real::zero());
    assert_eq!(Real::zero().div(Real::zero()), Real::zero());
    assert_eq!(Real::min_value().div(Real::zero()), Real::zero());
}

#[test]
fn div_saturates() {
    assert_eq!(Real::max_value().div(Real::from_raw(1)), Real::max_value());
    assert_eq!(Real::max_value().div(Real::from_raw(-1)), Real::min_value());
    assert_eq!(Real::min_value().div(fx(-1.0)), Real::max_value());
}

#[test]
fn inv_is_the_guarded_reciprocal() {
    assert_eq!(Real::zero().inv(), Real::zero());
    assert_eq!(fx(2.0).inv(), fx(0.5));
    assert_eq!(fx(-4.0).inv(), fx(-0.25));
    assert_eq!(Real::from_raw(1).inv(), Real::max_value());
}

#[test]
fn sqrt_rounds_down() {
    assert_eq!(fx(4.0).sqrt(), fx(2.0));
    assert_eq!(fx(0.25).sqrt(), fx(0.5));
    assert_eq!(Real::zero().sqrt(), Real::zero());
    assert_eq!(fx(2.0).sqrt().raw, 6074000999);
    assert_eq!(fx(3.0).sqrt().raw, 7439101573);
    assert_eq!(Real::max_value().sqrt().raw, 199032864766430);
}

#[test]
fn sqrt_of_a_negative_number_is_zero() {
    assert_eq!(fx(-1.0).sqrt(), Real::zero());
    assert_eq!(Real::min_value().sqrt(), Real::zero());
}

#[test]
fn max_and_clamp_compare_raw_values() {
    assert_eq!(fx(1.0).max(fx(2.0)), fx(2.0));
    assert_eq!(fx(-1.0).max(Real::zero()), Real::zero());
    assert_eq!(fx(5.0).clamp(fx(-1.0), fx(1.0)), fx(1.0));
    assert_eq!(fx(-5.0).clamp(fx(-1.0), fx(1.0)), fx(-1.0));
    assert_eq!(fx(0.5).clamp(fx(-1.0), fx(1.0)), fx(0.5));
}

#[test]
fn clamp_with_inverted_bounds_tests_the_lower_bound_first() {
    assert_eq!(fx(5.0).clamp(fx(10.0), Real::zero()), fx(10.0));
    assert_eq!(fx(20.0).clamp(fx(10.0), Real::zero()), Real::zero());
}

#[test]
fn copy_sign_to_takes_the_sign_of_the_receiver() {
    assert_eq!(fx(3.0).copy_sign_to(Real::one()), Real::one());
    assert_eq!(fx(-3.0).copy_sign_to(Real::one()), fx(-1.0));
    assert_eq!(Real::zero().copy_sign_to(Real::one()), Real::one());
    assert_eq!(fx(-3.0).copy_sign_to(fx(-2.0)), fx(-2.0));
    assert_eq!(fx(3.0).copy_sign_to(fx(-2.0)), fx(2.0));
}

#[test]
fn vector_sums_and_products() {
    let a = vec3(1.0, 2.0, 3.0);
    let b = vec3(4.0, 5.0, 6.0);
    assert_eq!(a.add(b), vec3(5.0, 7.0, 9.0));
    assert_eq!(a.sub(b), vec3(-3.0, -3.0, -3.0));
    assert_eq!(a.neg(), vec3(-1.0, -2.0, -3.0));
    assert_eq!(a.scale(fx(2.0)), vec3(2.0, 4.0, 6.0));
    assert_eq!(b.unscale(fx(2.0)), vec3(2.0, 2.5, 3.0));
    assert_eq!(b.unscale(Real::zero()), Vector::zero());
    assert_eq!(a.dot(b), fx(32.0));
    assert_eq!(a.norm_squared(), fx(14.0));
    assert_eq!(a.cross(b), vec3(-3.0, 6.0, -3.0));
    assert_eq!(vec3(1.0, 0.0, 0.0).cross(vec3(0.0, 1.0, 0.0)), vec3(0.0, 0.0, 1.0));
}

#[test]
fn vector_coordinates_and_distance() {
    let a = vec3(1.0, 2.0, 3.0);
    assert_eq!(a.coord(0), fx(1.0));
    assert_eq!(a.coord(1), fx(2.0));
    assert_eq!(a.coord(2), fx(3.0));
    assert_eq!(Vector::zero().distance(vec3(3.0, 4.0, 0.0)), fx(5.0));
    assert_eq!(vec3(1.0, 1.0, 1.0).distance(vec3(1.0, 1.0, 1.0)), Real::zero());
}

#[test]
fn orthonormal_basis_of_the_vertical_axis() {
    let up = vec3(0.0, 0.0, 1.0).orthonormal_basis();
    assert_eq!(up[0], vec3(1.0, 0.0, 0.0));
    assert_eq!(up[1], vec3(0.0, 1.0, 0.0));
    let down = vec3(0.0, 0.0, -1.0).orthonormal_basis();
    assert_eq!(down[0], vec3(1.0, 0.0, 0.0));
    assert_eq!(down[1], vec3(0.0, -1.0, 0.0));
}

#[test]
fn orthonormal_basis_is_orthogonal_to_a_horizontal_axis() {
    let n = vec3(1.0, 0.0, 0.0);
    let basis = n.orthonormal_basis();
    assert_eq!(basis[0], vec3(0.0, 0.0, -1.0));
    assert_eq!(basis[1], vec3(0.0, 1.0, 0.0));
    assert_eq!(basis[0].dot(n), Real::zero());
    assert_eq!(basis[1].dot(n), Real::zero());
    assert_eq!(basis[0].dot(basis[1]), Real::zero());
}

#[test]
fn angular_inertia_transforms_vectors() {
    let identity = AngularInertia {
        m11: Real::one(),
        m12: Real::zero(),
        m13: Real::zero(),
        m22: Real::one(),
        m23: Real::zero(),
        m33: Real::one(),
    };
    let v = vec3(1.0, -2.0, 3.0);
    assert_eq!(identity.transform_vector(v), v);
    let m = AngularInertia {
        m11: fx(1.0),
        m12: fx(2.0),
        m13: fx(3.0),
        m22: fx(4.0),
        m23: fx(5.0),
        m33: fx(6.0),
    };
    assert_eq!(m.transform_vector(vec3(1.0, 1.0, 1.0)), vec3(6.0, 11.0, 14.0));
    assert_eq!(m.transform_vector(vec3(1.0, 0.0, -1.0)), vec3(-2.0, -3.0, -3.0));
}
