//! Axis-aligned bounding boxes.

use crate::vector::Point;
use vstd::prelude::*;

verus! {

/// An axis-aligned bounding box, given by its two extreme corners.
#[derive(Clone, Copy, Debug, PartialEq, Eq, Structural)]
pub struct Aabb {
    pub mins: Point,
    pub maxs: Point,
}

impl Aabb {
    /// Whether the two boxes share a point: on every axis, each box begins
    /// no later than the other ends.
    pub open spec fn spec_intersects(&self, other: &Aabb) -> bool {
        &&& self.mins.x.raw <= other.maxs.x.raw
        &&& self.mins.y.raw <= other.maxs.y.raw
        &&& self.mins.z.raw <= other.maxs.z.raw
        &&& self.maxs.x.raw >= other.mins.x.raw
        &&& self.maxs.y.raw >= other.mins.y.raw
        &&& self.maxs.z.raw >= other.mins.z.raw
    }

    /// Whether the two boxes are apart on axis `dim`.
    pub open spec fn spec_disjoint_on(&self, other: &Aabb, dim: int) -> bool {
        ||| self.maxs.spec_coord(dim).raw < other.mins.spec_coord(dim).raw
        ||| other.maxs.spec_coord(dim).raw < self.mins.spec_coord(dim).raw
    }

    pub fn new(mins: Point, maxs: Point) -> (aabb: Aabb)
        ensures
            aabb == (Aabb { mins, maxs }),
    {
        Aabb { mins, maxs }
    }

    #[verifier::when_used_as_spec(spec_intersects)]
    pub fn intersects(&self, other: &Aabb) -> (r: bool)
        ensures
            r == self.spec_intersects(other),
    {
        self.mins.x.raw <= other.maxs.x.raw && self.mins.y.raw <= other.maxs.y.raw
            && self.mins.z.raw <= other.maxs.z.raw && self.maxs.x.raw >= other.mins.x.raw
            && self.maxs.y.raw >= other.mins.y.raw && self.maxs.z.raw >= other.mins.z.raw
    }
}

/// Two boxes that are apart on some axis do not intersect.
pub proof fn lemma_disjoint_boxes_do_not_intersect(a: Aabb, b: Aabb, dim: int)
    requires
        0 <= dim < 3,
        a.spec_disjoint_on(&b, dim),
    ensures
        !a.intersects(&b),
        !b.intersects(&a),
{
}

/// Intersection does not depend on the order of the two boxes.
pub proof fn lemma_intersects_symmetric(a: Aabb, b: Aabb)
    ensures
        a.intersects(&b) == b.intersects(&a),
{
}

} // verus!
