//! Axis-aligned boxes.
use vstd::prelude::*;
use crate::scalar::{Point3, Scalar, INFINITY_KEY};

verus! {

/// An axis-aligned box, from its least to its greatest corner.
#[derive(Clone, Copy, PartialEq, Eq, Structural, Debug)]
pub struct AABB {
    pub min: Point3,
    pub max: Point3,
}

/// The corner with the lesser of each coordinate.
pub open spec fn lower(a: Point3, b: Point3) -> Point3 {
    Point3 { x: a.x.min(b.x), y: a.y.min(b.y), z: a.z.min(b.z) }
}

/// The corner with the greater of each coordinate.
pub open spec fn upper(a: Point3, b: Point3) -> Point3 {
    Point3 { x: a.x.max(b.x), y: a.y.max(b.y), z: a.z.max(b.z) }
}

impl AABB {
    /// The box that holds this one and a point.
    pub open spec fn with_point(self, p: Point3) -> AABB {
        AABB { min: lower(self.min, p), max: upper(self.max, p) }
    }

    /// The box that holds this one and another.
    pub open spec fn union(self, other: AABB) -> AABB {
        AABB { min: lower(self.min, other.min), max: upper(self.max, other.max) }
    }

    /// Whether a point lies in the box, its surface included.
    pub open spec fn contains(self, p: Point3) -> bool {
        &&& self.min.x.le(p.x) && p.x.le(self.max.x)
        &&& self.min.y.le(p.y) && p.y.le(self.max.y)
        &&& self.min.z.le(p.z) && p.z.le(self.max.z)
    }

    /// Whether another box lies in this one.
    pub open spec fn includes(self, other: AABB) -> bool {
        &&& self.min.x.le(other.min.x) && other.max.x.le(self.max.x)
        &&& self.min.y.le(other.min.y) && other.max.y.le(self.max.y)
        &&& self.min.z.le(other.min.z) && other.max.z.le(self.max.z)
    }

    /// The box that holds nothing: every extension of it is tight.
    pub fn invalid() -> (r: AABB)
        ensures
            r == empty_box(),
    {
        AABB {
            min: Point3 { x: Scalar::infinity(), y: Scalar::infinity(), z: Scalar::infinity() },
            max: Point3 {
                x: Scalar::neg_infinity(),
                y: Scalar::neg_infinity(),
                z: Scalar::neg_infinity(),
            },
        }
    }

    /// Grows the box to hold a point.
    pub fn extend(&mut self, point: Point3)
        ensures
            *final(self) == old(self).with_point(point),
    {
        self.min = Point3 {
            x: self.min.x.min(point.x),
            y: self.min.y.min(point.y),
            z: self.min.z.min(point.z),
        };
        self.max = Point3 {
            x: self.max.x.max(point.x),
            y: self.max.y.max(point.y),
            z: self.max.z.max(point.z),
        };
    }

    /// Grows the box to hold another box.
    pub fn extend_aabb(&mut self, other: &AABB)
        ensures
            *final(self) == old(self).union(*other),
    {
        self.min = Point3 {
            x: self.min.x.min(other.min.x),
            y: self.min.y.min(other.min.y),
            z: self.min.z.min(other.min.z),
        };
        self.max = Point3 {
            x: self.max.x.max(other.max.x),
            y: self.max.y.max(other.max.y),
            z: self.max.z.max(other.max.z),
        };
    }
}

/// The box from positive to negative infinity, which holds no point.
pub open spec fn empty_box() -> AABB {
    let hi = Scalar { key: INFINITY_KEY };
    let lo = Scalar { key: (-INFINITY_KEY) as i32 };
    AABB { min: Point3 { x: hi, y: hi, z: hi }, max: Point3 { x: lo, y: lo, z: lo } }
}

/// Growing a box by a point makes it hold the point and loses nothing it held.
pub proof fn law_extend_holds(b: AABB, p: Point3, q: Point3)
    requires
        p.x.ordered() && p.y.ordered() && p.z.ordered(),
    ensures
        b.with_point(p).contains(p),
        b.contains(q) ==> b.with_point(p).contains(q),
{
}

/// The union of two boxes holds what either holds.
pub proof fn law_union_holds(a: AABB, b: AABB, q: Point3)
    ensures
        a.contains(q) || b.contains(q) ==> a.union(b).contains(q),
{
}

/// A box may be grown by points in any order.
pub proof fn law_points_any_order(b: AABB, p: Point3, q: Point3)
    ensures
        b.with_point(p).with_point(q) == b.with_point(q).with_point(p),
{
}

/// Unions may be taken in any order, and of one box any number of times.
pub proof fn law_union_order(a: AABB, b: AABB, c: AABB)
    ensures
        a.union(b) == b.union(a),
        a.union(b).union(c) == a.union(b.union(c)),
        a.union(a) == a,
{
}

} // verus!
