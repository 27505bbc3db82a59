//! Rays against single triangles.
use vstd::prelude::*;
use crate::accel::bvh::{Ray, TriangleHit};
use crate::arith::{cross, dot, minus, Arith, ArithRules};
use crate::brdf::MIN_COSINE_KEY;
use crate::material::ray_at;
use crate::scalar::{Point3, Scalar};

verus! {

impl ArithRules {
    /// Where a ray hits a triangle from the front, between its ends. None if the
    /// triangle is seen from behind or edge-on, or missed.
    pub open spec fn triangle_hit(self, ray: Ray, v0: Point3, v1: Point3, v2: Point3) -> Option<TriangleHit> {
        let edge1 = self.minus(v1, v0);
        let edge2 = self.minus(v2, v0);
        let h = self.cross(ray.dir, edge2);
        let det = self.dot(edge1, h);
        if det.lt(Scalar { key: MIN_COSINE_KEY }) {
            None
        } else {
            let inv_det = self.quotient(Scalar::one(), det);
            let s = self.minus(ray.org, v0);
            let u = self.product(inv_det, self.dot(s, h));
            if u.lt(Scalar::zero()) || Scalar::one().lt(u) {
                None
            } else {
                let q = self.cross(s, edge1);
                let v = self.product(inv_det, self.dot(ray.dir, q));
                if v.lt(Scalar::zero()) || Scalar::one().lt(self.sum(u, v)) {
                    None
                } else {
                    let t = self.product(inv_det, self.dot(edge2, q));
                    if t.lt(ray.tmin) || ray.tmax.lt(t) {
                        None
                    } else {
                        Some(TriangleHit { t, u, v })
                    }
                }
            }
        }
    }
}

/// Where a ray hits a triangle from the front, between its ends. None if the
/// triangle is seen from behind or edge-on, or missed.
fn triangle_hit<M: Arith>(math: &M, ray: Ray, v0: Point3, v1: Point3, v2: Point3) -> (r: Option<TriangleHit>)
    ensures
        forall|rules: ArithRules| #[trigger] rules.describe(*math) ==> r == rules.triangle_hit(ray, v0, v1, v2),
{
    let edge1 = minus(math, v1, v0);
    let edge2 = minus(math, v2, v0);
    let h = cross(math, ray.dir, edge2);
    let det = dot(math, edge1, h);
    if det.lt(Scalar { key: MIN_COSINE_KEY }) {
        None
    } else {
        let inv_det = math.quotient(Scalar::one(), det);
        let s = minus(math, ray.org, v0);
        let u = math.product(inv_det, dot(math, s, h));
        if u.lt(Scalar::zero()) || Scalar::one().lt(u) {
            None
        } else {
            let q = cross(math, s, edge1);
            let v = math.product(inv_det, dot(math, ray.dir, q));
            if v.lt(Scalar::zero()) || Scalar::one().lt(math.sum(u, v)) {
                None
            } else {
                let t = math.product(inv_det, dot(math, edge2, q));
                if t.lt(ray.tmin) || ray.tmax.lt(t) {
                    None
                } else {
                    Some(TriangleHit { t, u, v })
                }
            }
        }
    }
}

impl Ray {
    /// Where the ray hits a triangle from the front, between its ends.
    pub fn intersect_triangle<M: Arith>(&self, math: &M, v0: Point3, v1: Point3, v2: Point3) -> (r: Option<TriangleHit>)
        ensures
            forall|rules: ArithRules| #[trigger] rules.describe(*math) ==> r == rules.triangle_hit(*self, v0, v1, v2),
    {
        triangle_hit(math, *self, v0, v1, v2)
    }

    /// The point at a distance.
    pub fn at<M: Arith>(&self, math: &M, t: Scalar) -> (r: Point3)
        ensures
            forall|rules: ArithRules| #[trigger] rules.describe(*math) ==> r == rules.ray_at(*self, t),
    {
        ray_at(math, *self, t)
    }
}

/// A hit lies within the triangle and between the ends of the ray: nothing says
/// that it does not.
pub proof fn law_hit_is_inside(rules: ArithRules, ray: Ray, v0: Point3, v1: Point3, v2: Point3, hit: TriangleHit)
    requires
        rules.triangle_hit(ray, v0, v1, v2) == Some(hit),
    ensures
        !hit.u.lt(Scalar::zero()),
        !hit.v.lt(Scalar::zero()),
        !Scalar::one().lt(hit.u),
        !Scalar::one().lt(rules.sum(hit.u, hit.v)),
        !hit.t.lt(ray.tmin),
        !ray.tmax.lt(hit.t),
{
}

/// A ray that looks straight down on a triangle in the plane finds it where it is: its
/// coordinates are how far along both edges it comes down, its distance how high it
/// starts, each as a part of the edges. It hits wherever it comes down between the
/// corners, their edges among them, within its ends.
pub proof fn law_triangle_is_found_below(rules: ArithRules, ray: Ray, v0: Point3, v1: Point3, v2: Point3, a: Scalar, b: Scalar)
    requires
        rules.keeps_ones(),
        rules.keeps_zeros(),
        rules.keeps_signs(),
        rules.commutes(),
        ray.dir == (Point3 { x: Scalar::zero(), y: Scalar::zero(), z: Scalar::one().negated() }),
        rules.minus(v1, v0) == (Point3 { x: a, y: Scalar::zero(), z: Scalar::zero() }),
        rules.minus(v2, v0) == (Point3 { x: Scalar::zero(), y: b, z: Scalar::zero() }),
        a.is_finite() && Scalar::zero().lt(a),
        b.is_finite() && Scalar::zero().lt(b),
        rules.minus(ray.org, v0).is_finite(),
        ({
            let s = rules.minus(ray.org, v0);
            let det = rules.product(a, b);
            let inv = rules.quotient(Scalar::one(), det);
            &&& (Scalar { key: MIN_COSINE_KEY }).le(det) && det.is_finite()
            &&& inv.is_finite()
            &&& rules.difference(Scalar::zero(), b.negated()) == b
            &&& rules.difference(Scalar::zero(), rules.product(s.y, a)) == rules.product(s.y, a).negated()
            &&& rules.product(s.x, b).is_finite() && rules.product(s.y, a).is_finite() && rules.product(s.z, a).is_finite()
            &&& rules.product(b, rules.product(s.z, a)).is_finite()
            &&& rules.product(rules.product(inv, rules.product(s.x, b)), det) == rules.product(s.x, b)
            &&& rules.product(rules.product(inv, rules.product(s.y, a)), det) == rules.product(s.y, a)
            &&& rules.product(rules.product(inv, rules.product(b, rules.product(s.z, a))), det) == rules.product(
                b,
                rules.product(s.z, a),
            )
        }),
    ensures
        rules.triangle_hit(ray, v0, v1, v2) matches Some(hit) ==> {
            let s = rules.minus(ray.org, v0);
            let det = rules.product(a, b);
            &&& rules.product(hit.u, det) == rules.product(s.x, b)
            &&& rules.product(hit.v, det) == rules.product(s.y, a)
            &&& rules.product(hit.t, det) == rules.product(b, rules.product(s.z, a))
        },
        ({
            let s = rules.minus(ray.org, v0);
            let inv = rules.quotient(Scalar::one(), rules.product(a, b));
            let u = rules.product(inv, rules.product(s.x, b));
            let v = rules.product(inv, rules.product(s.y, a));
            let t = rules.product(inv, rules.product(b, rules.product(s.z, a)));
            &&& Scalar::zero().le(u) && Scalar::zero().le(v) && u.le(Scalar::one()) && rules.sum(u, v).le(Scalar::one())
            &&& ray.tmin.le(t) && t.le(ray.tmax)
        }) ==> rules.triangle_hit(ray, v0, v1, v2) is Some,
{
    let o = Scalar::zero();
    let m = Scalar::one().negated();
    let s = rules.minus(ray.org, v0);
    let e1 = Point3 { x: a, y: o, z: o };
    let e2 = Point3 { x: o, y: b, z: o };
    assert(rules.product(m, b) == b.negated()) by {
        assert(rules.product(Scalar::one().negated(), b) == rules.product(Scalar::one(), b).negated());
    }
    assert(rules.product(m, o) == o && rules.product(o, b) == o && rules.product(o, o) == o);
    assert(rules.difference(o, o) == o);
    let h = rules.cross(ray.dir, e2);
    assert(h == Point3 { x: b, y: o, z: o });
    assert(rules.product(a, o) == o && rules.product(s.y, o) == o && rules.product(s.z, o) == o && rules.product(s.x, o)
        == o);
    assert(rules.dot(e1, h) == rules.product(a, b));
    assert(rules.dot(s, h) == rules.product(s.x, b));
    let q = rules.cross(s, e1);
    assert(q == Point3 { x: o, y: rules.product(s.z, a), z: rules.product(s.y, a).negated() });
    let sa = rules.product(s.y, a);
    assert(rules.product(m, sa.negated()) == sa) by {
        assert(rules.product(Scalar::one().negated(), sa.negated()) == rules.product(
            Scalar::one(),
            sa.negated(),
        ).negated());
        assert(rules.product(Scalar::one(), sa.negated()) == sa.negated());
    }
    assert(rules.product(o, rules.product(s.z, a)) == o && rules.product(o, sa.negated()) == o);
    assert(rules.dot(ray.dir, q) == sa);
    assert(rules.dot(e2, q) == rules.product(b, rules.product(s.z, a)));
}

/// A longer ray hits what a shorter one does, in the same place.
pub proof fn law_longer_rays_hit_as_well(rules: ArithRules, ray: Ray, longer: Ray, v0: Point3, v1: Point3, v2: Point3)
    requires
        longer.org == ray.org,
        longer.dir == ray.dir,
        longer.tmin.le(ray.tmin),
        ray.tmax.le(longer.tmax),
    ensures
        rules.triangle_hit(ray, v0, v1, v2) matches Some(hit) ==> hit.t.ordered() ==> rules.triangle_hit(
            longer,
            v0,
            v1,
            v2,
        ) == Some(hit),
{
}

} // verus!
