//! Three-dimensional vectors and symmetric matrices over [`Real`].

use crate::math::Real;
use vstd::prelude::*;

verus! {

/// A vector, or the coordinates of a point, in three dimensions.
#[derive(Clone, Copy, Debug, PartialEq, Eq, Structural)]
pub struct Vector {
    pub x: Real,
    pub y: Real,
    pub z: Real,
}

/// A point of space, given by its coordinates.
pub type Point = Vector;

impl Vector {
    pub open spec fn spec_zero() -> Vector {
        Vector { x: Real::zero(), y: Real::zero(), z: Real::zero() }
    }

    pub open spec fn spec_add(self, rhs: Vector) -> Vector {
        Vector { x: self.x.add(rhs.x), y: self.y.add(rhs.y), z: self.z.add(rhs.z) }
    }

    pub open spec fn spec_sub(self, rhs: Vector) -> Vector {
        Vector { x: self.x.sub(rhs.x), y: self.y.sub(rhs.y), z: self.z.sub(rhs.z) }
    }

    pub open spec fn spec_neg(self) -> Vector {
        Vector { x: self.x.neg(), y: self.y.neg(), z: self.z.neg() }
    }

    /// Every component multiplied by `s`.
    pub open spec fn spec_scale(self, s: Real) -> Vector {
        Vector { x: self.x.mul(s), y: self.y.mul(s), z: self.z.mul(s) }
    }

    /// Every component divided by `s`; the zero vector where `s` is zero.
    pub open spec fn spec_unscale(self, s: Real) -> Vector {
        Vector { x: self.x.div(s), y: self.y.div(s), z: self.z.div(s) }
    }

    /// Scalar product, summed from the first component to the last.
    pub open spec fn spec_dot(self, rhs: Vector) -> Real {
        self.x.mul(rhs.x).add(self.y.mul(rhs.y)).add(self.z.mul(rhs.z))
    }

    /// Vector product.
    pub open spec fn spec_cross(self, rhs: Vector) -> Vector {
        Vector {
            x: self.y.mul(rhs.z).sub(self.z.mul(rhs.y)),
            y: self.z.mul(rhs.x).sub(self.x.mul(rhs.z)),
            z: self.x.mul(rhs.y).sub(self.y.mul(rhs.x)),
        }
    }

    pub open spec fn spec_norm_squared(self) -> Real {
        self.dot(self)
    }

    /// Distance between two points.
    pub open spec fn spec_distance(self, other: Vector) -> Real {
        self.sub(other).norm_squared().sqrt()
    }

    /// Two vectors that complete `self` to a basis; orthonormal, up to
    /// rounding, where `self` has unit length.
    pub open spec fn spec_orthonormal_basis(self) -> [Vector; 2] {
        let sign = self.z.copy_sign_to(Real::one());
        let a = Real::one().neg().div(sign.add(self.z));
        let b = self.x.mul(self.y).mul(a);
        [
            Vector {
                x: Real::one().add(sign.mul(self.x).mul(self.x).mul(a)),
                y: sign.mul(b),
                z: sign.neg().mul(self.x),
            },
            Vector { x: b, y: sign.add(self.y.mul(self.y).mul(a)), z: self.y.neg() },
        ]
    }

    /// The coordinate along axis `dim`: the first for 0, the second for 1,
    /// the third for any other.
    pub open spec fn spec_coord(self, dim: int) -> Real {
        if dim == 0 {
            self.x
        } else if dim == 1 {
            self.y
        } else {
            self.z
        }
    }

    #[verifier::when_used_as_spec(spec_coord_at)]
    pub fn coord(self, dim: usize) -> (r: Real)
        requires
            dim < crate::math::DIM,
        ensures
            r == self.spec_coord(dim as int),
    {
        if dim == 0 {
            self.x
        } else if dim == 1 {
            self.y
        } else {
            self.z
        }
    }

    pub open spec fn spec_coord_at(self, dim: usize) -> Real {
        self.spec_coord(dim as int)
    }

    pub fn new(x: Real, y: Real, z: Real) -> (r: Vector)
        ensures
            r == (Vector { x, y, z }),
    {
        Vector { x, y, z }
    }

    #[verifier::when_used_as_spec(spec_zero)]
    pub fn zero() -> (r: Vector)
        ensures
            r == Vector::spec_zero(),
    {
        Vector { x: Real::zero(), y: Real::zero(), z: Real::zero() }
    }

    #[verifier::when_used_as_spec(spec_add)]
    pub fn add(self, rhs: Vector) -> (r: Vector)
        ensures
            r == self.spec_add(rhs),
    {
        Vector { x: self.x.add(rhs.x), y: self.y.add(rhs.y), z: self.z.add(rhs.z) }
    }

    #[verifier::when_used_as_spec(spec_sub)]
    pub fn sub(self, rhs: Vector) -> (r: Vector)
        ensures
            r == self.spec_sub(rhs),
    {
        Vector { x: self.x.sub(rhs.x), y: self.y.sub(rhs.y), z: self.z.sub(rhs.z) }
    }

    #[verifier::when_used_as_spec(spec_neg)]
    pub fn neg(self) -> (r: Vector)
        ensures
            r == self.spec_neg(),
    {
        Vector { x: self.x.neg(), y: self.y.neg(), z: self.z.neg() }
    }

    #[verifier::when_used_as_spec(spec_scale)]
    pub fn scale(self, s: Real) -> (r: Vector)
        ensures
            r == self.spec_scale(s),
    {
        Vector { x: self.x.mul(s), y: self.y.mul(s), z: self.z.mul(s) }
    }

    #[verifier::when_used_as_spec(spec_unscale)]
    pub fn unscale(self, s: Real) -> (r: Vector)
        ensures
            r == self.spec_unscale(s),
    {
        Vector { x: self.x.div(s), y: self.y.div(s), z: self.z.div(s) }
    }

    #[verifier::when_used_as_spec(spec_dot)]
    pub fn dot(self, rhs: Vector) -> (r: Real)
        ensures
            r == self.spec_dot(rhs),
    {
        self.x.mul(rhs.x).add(self.y.mul(rhs.y)).add(self.z.mul(rhs.z))
    }

    #[verifier::when_used_as_spec(spec_cross)]
    pub fn cross(self, rhs: Vector) -> (r: Vector)
        ensures
            r == self.spec_cross(rhs),
    {
        Vector {
            x: self.y.mul(rhs.z).sub(self.z.mul(rhs.y)),
            y: self.z.mul(rhs.x).sub(self.x.mul(rhs.z)),
            z: self.x.mul(rhs.y).sub(self.y.mul(rhs.x)),
        }
    }

    #[verifier::when_used_as_spec(spec_norm_squared)]
    pub fn norm_squared(self) -> (r: Real)
        ensures
            r == self.spec_norm_squared(),
    {
        self.dot(self)
    }

    #[verifier::when_used_as_spec(spec_distance)]
    pub fn distance(self, other: Vector) -> (r: Real)
        ensures
            r == self.spec_distance(other),
    {
        self.sub(other).norm_squared().sqrt()
    }

    #[verifier::when_used_as_spec(spec_orthonormal_basis)]
    pub fn orthonormal_basis(self) -> (r: [Vector; 2])
        ensures
            r == self.spec_orthonormal_basis(),
    {
        let sign = self.z.copy_sign_to(Real::one());
        let a = Real::one().neg().div(sign.add(self.z));
        let b = self.x.mul(self.y).mul(a);
        [
            Vector {
                x: Real::one().add(sign.mul(self.x).mul(self.x).mul(a)),
                y: sign.mul(b),
                z: sign.neg().mul(self.x),
            },
            Vector { x: b, y: sign.add(self.y.mul(self.y).mul(a)), z: self.y.neg() },
        ]
    }
}

/// A symmetric three-by-three matrix, stored by its upper triangle.
#[derive(Clone, Copy, Debug, PartialEq, Eq, Structural)]
pub struct AngularInertia {
    pub m11: Real,
    pub m12: Real,
    pub m13: Real,
    pub m22: Real,
    pub m23: Real,
    pub m33: Real,
}

impl AngularInertia {
    /// Product of the matrix with `v`.
    pub open spec fn spec_transform_vector(self, v: Vector) -> Vector {
        Vector {
            x: self.m11.mul(v.x).add(self.m12.mul(v.y)).add(self.m13.mul(v.z)),
            y: self.m12.mul(v.x).add(self.m22.mul(v.y)).add(self.m23.mul(v.z)),
            z: self.m13.mul(v.x).add(self.m23.mul(v.y)).add(self.m33.mul(v.z)),
        }
    }

    #[verifier::when_used_as_spec(spec_transform_vector)]
    pub fn transform_vector(self, v: Vector) -> (r: Vector)
        ensures
            r == self.spec_transform_vector(v),
    {
        Vector {
            x: self.m11.mul(v.x).add(self.m12.mul(v.y)).add(self.m13.mul(v.z)),
            y: self.m12.mul(v.x).add(self.m22.mul(v.y)).add(self.m23.mul(v.z)),
            z: self.m13.mul(v.x).add(self.m23.mul(v.y)).add(self.m33.mul(v.z)),
        }
    }
}

} // verus!
