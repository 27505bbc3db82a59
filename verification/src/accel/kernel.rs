//! Tests of a ray against eight boxes and against eight triangles.
use vstd::prelude::*;
use crate::aabb::AABB;
use crate::accel::bvh::{BoxHits, InternalRay, Ray, RayRules, TriangleHit, TriangleHitSimd};
use crate::accel::node::{Bvh8Node, FlatTriangles, WIDTH};
use crate::arith::{minus, unit, Arith, ArithRules};
use crate::brdf::MIN_COSINE_KEY;
use crate::scalar::{Point3, Scalar};

verus! {

/// Key of a number just above one, up to which two barycentric coordinates may
/// add.
pub const BARY_LIMIT_KEY: i32 = 0x3f80_0008;

/// A triangle, as a corner and two edges.
#[derive(Clone, Copy, PartialEq, Eq, Structural, Debug)]
pub struct LaneTriangle {
    pub corner: Point3,
    pub edge1: Point3,
    pub edge2: Point3,
    /// Whether it is hit from behind too.
    pub double_sided: bool,
}

/// Where a ray enters and leaves a box.
#[derive(Clone, Copy, PartialEq, Eq, Structural, Debug)]
pub struct Interval {
    pub near: Scalar,
    pub far: Scalar,
}

impl ArithRules {
    /// A ray with a unit direction, and the reciprocals of its coordinates.
    pub open spec fn ready_ray(self, origin: Point3, direction: Point3, tmin: Scalar, tmax: Scalar) -> InternalRay {
        InternalRay {
            origin,
            direction,
            inv_direction: Point3 {
                x: self.quotient(Scalar::one(), direction.x),
                y: self.quotient(Scalar::one(), direction.y),
                z: self.quotient(Scalar::one(), direction.z),
            },
            tmin,
            tmax,
        }
    }

    /// The vector product, each coordinate rounded twice.
    pub open spec fn fused_cross(self, p: Point3, q: Point3) -> Point3 {
        Point3 {
            x: self.fused(p.y, q.z, self.product(p.z, q.y).negated()),
            y: self.fused(p.z, q.x, self.product(p.x, q.z).negated()),
            z: self.fused(p.x, q.y, self.product(p.y, q.x).negated()),
        }
    }

    /// The scalar product, rounded once per coordinate.
    pub open spec fn fused_dot(self, p: Point3, q: Point3) -> Scalar {
        self.fused(p.z, q.z, self.fused(p.y, q.y, self.product(p.x, q.x)))
    }

    /// Where a ray hits a triangle up to `t_max`.
    pub open spec fn lane_hit(self, ray: InternalRay, tri: LaneTriangle, t_max: Scalar) -> Option<TriangleHit> {
        let h = self.fused_cross(ray.direction, tri.edge2);
        let det = self.fused_dot(tri.edge1, h);
        let eps = Scalar { key: MIN_COSINE_KEY };
        let inv_det = self.quotient(Scalar::one(), det);
        let s = self.minus(ray.origin, tri.corner);
        let u = self.product(inv_det, self.fused_dot(s, h));
        let q = self.fused_cross(s, tri.edge1);
        let v = self.product(inv_det, self.fused_dot(ray.direction, q));
        let t = self.product(inv_det, self.fused_dot(tri.edge2, q));
        if (eps.le(det) || (tri.double_sided && det.le(eps.negated()))) && Scalar::zero().le(u) && u.le(Scalar::one())
            && Scalar::zero().le(v) && self.sum(u, v).le(Scalar { key: BARY_LIMIT_KEY }) && ray.tmin.le(t) && t.le(t_max) {
            Some(TriangleHit { t, u, v })
        } else {
            None
        }
    }

    /// Where a ray crosses the space between two planes.
    pub open spec fn slab(self, lo: Scalar, hi: Scalar, origin: Scalar, inv: Scalar) -> Interval {
        let t0 = self.product(self.difference(lo, origin), inv);
        let t1 = self.product(self.difference(hi, origin), inv);
        Interval { near: t0.min(t1), far: t0.max(t1) }
    }

    /// Where a ray is within a box, between its start and `t_max`.
    pub open spec fn box_interval(self, ray: InternalRay, b: AABB, t_max: Scalar) -> Interval {
        let x = self.slab(b.min.x, b.max.x, ray.origin.x, ray.inv_direction.x);
        let y = self.slab(b.min.y, b.max.y, ray.origin.y, ray.inv_direction.y);
        let z = self.slab(b.min.z, b.max.z, ray.origin.z, ray.inv_direction.z);
        Interval {
            near: x.near.max(y.near).max(z.near).max(ray.tmin),
            far: x.far.min(y.far).min(z.far).min(t_max),
        }
    }
}

/// A ray with a unit direction, and the reciprocals of its coordinates.
fn ready_ray<M: Arith>(math: &M, origin: Point3, direction: Point3, tmin: Scalar, tmax: Scalar) -> (r: InternalRay)
    ensures
        forall|rules: ArithRules| #[trigger] rules.describe(*math) ==> r == rules.ready_ray(origin, direction, tmin, tmax),
{
    InternalRay {
        origin,
        direction,
        inv_direction: Point3 {
            x: math.quotient(Scalar::one(), direction.x),
            y: math.quotient(Scalar::one(), direction.y),
            z: math.quotient(Scalar::one(), direction.z),
        },
        tmin,
        tmax,
    }
}

/// The vector product, each coordinate rounded twice.
fn fused_cross<M: Arith>(math: &M, p: Point3, q: Point3) -> (r: Point3)
    ensures
        forall|rules: ArithRules| #[trigger] rules.describe(*math) ==> r == rules.fused_cross(p, q),
{
    Point3 {
        x: math.fused(p.y, q.z, math.product(p.z, q.y).negated()),
        y: math.fused(p.z, q.x, math.product(p.x, q.z).negated()),
        z: math.fused(p.x, q.y, math.product(p.y, q.x).negated()),
    }
}

/// The scalar product, rounded once per coordinate.
fn fused_dot<M: Arith>(math: &M, p: Point3, q: Point3) -> (r: Scalar)
    ensures
        forall|rules: ArithRules| #[trigger] rules.describe(*math) ==> r == rules.fused_dot(p, q),
{
    math.fused(p.z, q.z, math.fused(p.y, q.y, math.product(p.x, q.x)))
}

/// Where a ray hits a triangle up to `t_max`.
fn lane_hit<M: Arith>(math: &M, ray: InternalRay, tri: LaneTriangle, t_max: Scalar) -> (r: Option<TriangleHit>)
    ensures
        forall|rules: ArithRules| #[trigger] rules.describe(*math) ==> r == rules.lane_hit(ray, tri, t_max),
{
    let h = fused_cross(math, ray.direction, tri.edge2);
    let det = fused_dot(math, tri.edge1, h);
    let eps = Scalar { key: MIN_COSINE_KEY };
    let inv_det = math.quotient(Scalar::one(), det);
    let s = minus(math, ray.origin, tri.corner);
    let u = math.product(inv_det, fused_dot(math, s, h));
    let q = fused_cross(math, s, tri.edge1);
    let v = math.product(inv_det, fused_dot(math, ray.direction, q));
    let t = math.product(inv_det, fused_dot(math, tri.edge2, q));
    if (eps.le(det) || (tri.double_sided && det.le(eps.negated()))) && Scalar::zero().le(u) && u.le(Scalar::one())
        && Scalar::zero().le(v) && math.sum(u, v).le(Scalar { key: BARY_LIMIT_KEY }) && ray.tmin.le(t) && t.le(t_max) {
        Some(TriangleHit { t, u, v })
    } else {
        None
    }
}

/// Where a ray crosses the space between two planes.
fn slab<M: Arith>(math: &M, lo: Scalar, hi: Scalar, origin: Scalar, inv: Scalar) -> (r: Interval)
    ensures
        forall|rules: ArithRules| #[trigger] rules.describe(*math) ==> r == rules.slab(lo, hi, origin, inv),
{
    let t0 = math.product(math.difference(lo, origin), inv);
    let t1 = math.product(math.difference(hi, origin), inv);
    Interval { near: t0.min(t1), far: t0.max(t1) }
}

/// Where a ray is within a box, between its start and `t_max`.
fn box_interval<M: Arith>(math: &M, ray: InternalRay, b: AABB, t_max: Scalar) -> (r: Interval)
    ensures
        forall|rules: ArithRules| #[trigger] rules.describe(*math) ==> r == rules.box_interval(ray, b, t_max),
{
    let x = slab(math, b.min.x, b.max.x, ray.origin.x, ray.inv_direction.x);
    let y = slab(math, b.min.y, b.max.y, ray.origin.y, ray.inv_direction.y);
    let z = slab(math, b.min.z, b.max.z, ray.origin.z, ray.inv_direction.z);
    Interval {
        near: x.near.max(y.near).max(z.near).max(ray.tmin),
        far: x.far.min(y.far).min(z.far).min(t_max),
    }
}

impl FlatTriangles {
    /// The triangle in a lane.
    pub open spec fn lane(self, lane: int, mask: u8) -> LaneTriangle {
        LaneTriangle {
            corner: self.corner(lane),
            edge1: self.edge1(lane),
            edge2: self.edge2(lane),
            double_sided: mask & (1u8 << (lane as u8)) != 0,
        }
    }

    /// The triangle in a lane.
    fn get_lane(&self, lane: usize, mask: u8) -> (r: LaneTriangle)
        requires
            lane < WIDTH,
        ensures
            r == self.lane(lane as int, mask),
    {
        LaneTriangle {
            corner: Point3 { x: self.v0_x[lane], y: self.v0_y[lane], z: self.v0_z[lane] },
            edge1: Point3 { x: self.e1_x[lane], y: self.e1_y[lane], z: self.e1_z[lane] },
            edge2: Point3 { x: self.e2_x[lane], y: self.e2_y[lane], z: self.e2_z[lane] },
            double_sided: mask & (1u8 << (lane as u8)) != 0,
        }
    }
}

impl ArithRules {
    /// A ray, ready to be tested: its direction made unit length.
    pub open spec fn internal_ray(self, ray: Ray) -> InternalRay {
        self.ready_ray(ray.org, self.unit(ray.dir), ray.tmin, ray.tmax)
    }

    /// The nearest hit strictly before `t_max` in the first `k` lanes of a chunk;
    /// of equally near ones the first.
    pub open spec fn closest_lane(
        self,
        ray: InternalRay,
        soa: FlatTriangles,
        t_max: Scalar,
        mask: u8,
        k: nat,
    ) -> Option<TriangleHitSimd>
        decreases k,
    {
        if k == 0 {
            None
        } else {
            let before = self.closest_lane(ray, soa, t_max, mask, (k - 1) as nat);
            let best = match before {
                Some(b) => b.hit.t,
                None => t_max,
            };
            match self.lane_hit(ray, soa.lane(k - 1, mask), t_max) {
                Some(hit) => if hit.t.lt(best) {
                    Some(TriangleHitSimd { hit, lane: (k - 1) as u32 })
                } else {
                    before
                },
                None => before,
            }
        }
    }

    /// Whether a ray hits a triangle in the first `k` lanes of a chunk.
    pub open spec fn any_lane(self, ray: InternalRay, soa: FlatTriangles, t_max: Scalar, mask: u8, k: nat) -> bool
        decreases k,
    {
        k > 0 && (self.any_lane(ray, soa, t_max, mask, (k - 1) as nat) || self.lane_hit(
            ray,
            soa.lane(k - 1, mask),
            t_max,
        ) is Some)
    }

    /// Whether a ray enters the box of a child.
    pub open spec fn enters(self, ray: InternalRay, node: Bvh8Node, t_max: Scalar, slot: int) -> bool {
        let i = self.box_interval(ray, node.child_box(slot), t_max);
        i.near.le(i.far)
    }

    /// A bit for each of the first `k` children whose box a ray enters.
    pub open spec fn entered(self, ray: InternalRay, node: Bvh8Node, t_max: Scalar, k: nat) -> u32
        decreases k,
    {
        if k == 0 {
            0
        } else {
            let before = self.entered(ray, node, t_max, (k - 1) as nat);
            if self.enters(ray, node, t_max, k - 1) {
                before | (1u32 << ((k - 1) as u32))
            } else {
                before
            }
        }
    }

    /// Where a ray enters the box of a child.
    pub open spec fn entry(self, ray: InternalRay, node: Bvh8Node, t_max: Scalar, slot: int) -> Scalar {
        self.box_interval(ray, node.child_box(slot), t_max).near
    }

    /// Which of a node's boxes a ray enters, and where.
    pub open spec fn box_hits(self, ray: InternalRay, node: Bvh8Node, t_max: Scalar) -> BoxHits {
        BoxHits {
            mask: self.entered(ray, node, t_max, WIDTH as nat),
            t: [
                self.entry(ray, node, t_max, 0),
                self.entry(ray, node, t_max, 1),
                self.entry(ray, node, t_max, 2),
                self.entry(ray, node, t_max, 3),
                self.entry(ray, node, t_max, 4),
                self.entry(ray, node, t_max, 5),
                self.entry(ray, node, t_max, 6),
                self.entry(ray, node, t_max, 7),
            ],
        }
    }

    /// The functions by which rays are tested with this arithmetic.
    pub open spec fn ray_rules(self) -> RayRules {
        RayRules {
            internal: |ray: Ray| self.internal_ray(ray),
            boxes: |ray: InternalRay, node: Bvh8Node, t: Scalar| self.box_hits(ray, node, t),
            closest: |ray: InternalRay, soa: FlatTriangles, t: Scalar, m: u8|
                self.closest_lane(ray, soa, t, m, WIDTH as nat),
            any: |ray: InternalRay, soa: FlatTriangles, t: Scalar, m: u8| self.any_lane(ray, soa, t, m, WIDTH as nat),
        }
    }
}

/// A ray, ready to be tested: its direction made unit length.
pub fn to_internal<M: Arith>(math: &M, ray: &Ray) -> (r: InternalRay)
    ensures
        forall|rules: RayRules| #[trigger] rules.describe(*math) ==> r == (rules.internal)(*ray),
{
    reveal(RayRules::describe);
    InternalRay::new(math, ray.org, unit(math, ray.dir), ray.tmin, ray.tmax)
}

impl InternalRay {
    /// A ray with a unit direction, ready to be tested.
    pub fn new<M: Arith>(math: &M, origin: Point3, direction: Point3, tmin: Scalar, tmax: Scalar) -> (r: InternalRay)
        ensures
            forall|rules: ArithRules| #[trigger]
                rules.describe(*math) ==> r == rules.ready_ray(origin, direction, tmin, tmax),
    {
        ready_ray(math, origin, direction, tmin, tmax)
    }

    /// Which of a node's boxes the ray enters before `t_max`, and where.
    pub fn intersect_bvh8<M: Arith>(&self, math: &M, node: &Bvh8Node, t_max: Scalar) -> (r: BoxHits)
        ensures
            forall|rules: RayRules| #[trigger] rules.describe(*math) ==> r == (rules.boxes)(*self, *node, t_max),
    {
        reveal(RayRules::describe);
        let mut mask: u32 = 0;
        let mut ts = [Scalar::zero();8];
        let mut slot: usize = 0;
        while slot < WIDTH
            invariant
                slot <= WIDTH,
                forall|rules: ArithRules| #[trigger]
                    rules.describe(*math) ==> mask == rules.entered(*self, *node, t_max, slot as nat),
                forall|rules: ArithRules, i: int|
                    #![trigger rules.describe(*math), ts[i]]
                    rules.describe(*math) && 0 <= i < slot ==> ts[i] == rules.entry(*self, *node, t_max, i),
            decreases WIDTH - slot,
        {
            let b = AABB {
                min: Point3 { x: node.p_min_x[slot], y: node.p_min_y[slot], z: node.p_min_z[slot] },
                max: Point3 { x: node.p_max_x[slot], y: node.p_max_y[slot], z: node.p_max_z[slot] },
            };
            assert(b == node.child_box(slot as int));
            let i = box_interval(math, *self, b, t_max);
            ts[slot] = i.near;
            if i.near.le(i.far) {
                mask = mask | (1u32 << (slot as u32));
            }
            slot = slot + 1;
        }
        let r = BoxHits { mask, t: ts };
        proof {
            assert forall|rules: ArithRules| #[trigger] rules.describe(*math) implies r == rules.box_hits(
                *self,
                *node,
                t_max,
            ) by {
                assert(ts =~= rules.box_hits(*self, *node, t_max).t);
            }
        }
        r
    }

    /// The nearest hit in a chunk before `t_max`. Lanes whose bit is set in
    /// `double_sided_mask` are hit from behind too.
    pub fn closest_triangle_simd8<M: Arith>(
        &self,
        math: &M,
        soa: &FlatTriangles,
        t_max: Scalar,
        double_sided_mask: u8,
    ) -> (r: Option<TriangleHitSimd>)
        ensures
            forall|rules: RayRules| #[trigger]
                rules.describe(*math) ==> r == (rules.closest)(*self, *soa, t_max, double_sided_mask),
    {
        reveal(RayRules::describe);
        let mut best_t = t_max;
        let mut best: Option<TriangleHitSimd> = None;
        let mut lane: usize = 0;
        while lane < WIDTH
            invariant
                lane <= WIDTH,
                best_t == (match best {
                    Some(b) => b.hit.t,
                    None => t_max,
                }),
                forall|rules: ArithRules| #[trigger]
                    rules.describe(*math) ==> best == rules.closest_lane(
                        *self,
                        *soa,
                        t_max,
                        double_sided_mask,
                        lane as nat,
                    ),
            decreases WIDTH - lane,
        {
            match lane_hit(math, *self, soa.get_lane(lane, double_sided_mask), t_max) {
                Some(hit) => {
                    if hit.t.lt(best_t) {
                        best_t = hit.t;
                        best = Some(TriangleHitSimd { hit, lane: lane as u32 });
                    }
                },
                None => {},
            }
            lane = lane + 1;
        }
        best
    }

    /// Whether the ray hits a triangle of a chunk up to `t_max`.
    pub fn any_triangle_simd8<M: Arith>(
        &self,
        math: &M,
        soa: &FlatTriangles,
        t_max: Scalar,
        double_sided_mask: u8,
    ) -> (r: bool)
        ensures
            forall|rules: RayRules| #[trigger]
                rules.describe(*math) ==> r == (rules.any)(*self, *soa, t_max, double_sided_mask),
    {
        reveal(RayRules::describe);
        let mut any: bool = false;
        let mut lane: usize = 0;
        while lane < WIDTH
            invariant
                lane <= WIDTH,
                forall|rules: ArithRules| #[trigger]
                    rules.describe(*math) ==> any == rules.any_lane(
                        *self,
                        *soa,
                        t_max,
                        double_sided_mask,
                        lane as nat,
                    ),
            decreases WIDTH - lane,
        {
            if lane_hit(math, *self, soa.get_lane(lane, double_sided_mask), t_max).is_some() {
                any = true;
            }
            lane = lane + 1;
        }
        any
    }
}

/// Searching for any hit in a chunk finds one whenever the nearest hit is found.
pub proof fn law_any_lane_finds_closest(
    rules: ArithRules,
    ray: InternalRay,
    soa: FlatTriangles,
    t_max: Scalar,
    mask: u8,
    k: nat,
)
    requires
        rules.closest_lane(ray, soa, t_max, mask, k) is Some,
    ensures
        rules.any_lane(ray, soa, t_max, mask, k),
    decreases k,
{
    if k > 0 && rules.closest_lane(ray, soa, t_max, mask, (k - 1) as nat) is Some {
        law_any_lane_finds_closest(rules, ray, soa, t_max, mask, (k - 1) as nat);
    }
}

/// The hit that is found in a chunk is the hit of its lane, lies strictly before
/// `t_max`, and no other lane is hit nearer.
pub proof fn law_closest_lane_is_closest(
    rules: ArithRules,
    ray: InternalRay,
    soa: FlatTriangles,
    t_max: Scalar,
    mask: u8,
    k: nat,
    found: TriangleHitSimd,
    other: int,
    hit: TriangleHit,
)
    requires
        k <= WIDTH,
        rules.closest_lane(ray, soa, t_max, mask, k) == Some(found),
        0 <= other < k,
        rules.lane_hit(ray, soa.lane(other, mask), t_max) == Some(hit),
    ensures
        found.lane < k,
        rules.lane_hit(ray, soa.lane(found.lane as int, mask), t_max) == Some(found.hit),
        found.hit.t.lt(t_max),
        !hit.t.lt(found.hit.t),
    decreases k,
{
    let before = rules.closest_lane(ray, soa, t_max, mask, (k - 1) as nat);
    if before is Some {
        if other < k - 1 {
            law_closest_lane_is_closest(rules, ray, soa, t_max, mask, (k - 1) as nat, before->0, other, hit);
        } else {
            lemma_closest_lane(rules, ray, soa, t_max, mask, (k - 1) as nat);
        }
    } else if other < k - 1 {
        lemma_no_lane(rules, ray, soa, t_max, mask, (k - 1) as nat, other);
    }
}

/// The hit that is found is the hit of its lane, before `t_max`.
proof fn lemma_closest_lane(
    rules: ArithRules,
    ray: InternalRay,
    soa: FlatTriangles,
    t_max: Scalar,
    mask: u8,
    k: nat,
)
    requires
        k <= WIDTH,
        rules.closest_lane(ray, soa, t_max, mask, k) is Some,
    ensures
        ({
            let found = rules.closest_lane(ray, soa, t_max, mask, k)->0;
            &&& found.lane < k
            &&& rules.lane_hit(ray, soa.lane(found.lane as int, mask), t_max) == Some(found.hit)
            &&& found.hit.t.lt(t_max)
        }),
    decreases k,
{
    if rules.closest_lane(ray, soa, t_max, mask, (k - 1) as nat) is Some {
        lemma_closest_lane(rules, ray, soa, t_max, mask, (k - 1) as nat);
    }
}

/// Where nothing is found, no lane is hit before `t_max`.
proof fn lemma_no_lane(
    rules: ArithRules,
    ray: InternalRay,
    soa: FlatTriangles,
    t_max: Scalar,
    mask: u8,
    k: nat,
    other: int,
)
    requires
        rules.closest_lane(ray, soa, t_max, mask, k) is None,
        0 <= other < k,
    ensures
        rules.lane_hit(ray, soa.lane(other, mask), t_max) matches Some(hit) ==> !hit.t.lt(t_max),
    decreases k,
{
    if other < k - 1 {
        lemma_no_lane(rules, ray, soa, t_max, mask, (k - 1) as nat, other);
    }
}

/// An arithmetic settles how trees are built and how rays are tested: whatever
/// is computed with it follows the rules that come from its own.
pub proof fn law_arithmetic_settles_all<M: Arith>(rules: ArithRules, m: M)
    requires
        rules.describe(m),
    ensures
        rules.build_rules().describe(m),
        rules.ray_rules().describe(m),
{
    reveal(RayRules::describe);
}

/// A ray is made ready without changing it: it starts and ends where it did, runs in
/// the same direction at unit length, and the reciprocals of its coordinates, times
/// them, are one.
pub proof fn law_ready_ray_is_the_ray(rules: ArithRules, ray: Ray)
    requires
        ({
            let d = rules.unit(ray.dir);
            &&& rules.product(rules.quotient(Scalar::one(), d.x), d.x) == Scalar::one()
            &&& rules.product(rules.quotient(Scalar::one(), d.y), d.y) == Scalar::one()
            &&& rules.product(rules.quotient(Scalar::one(), d.z), d.z) == Scalar::one()
        }),
    ensures
        ({
            let r = rules.internal_ray(ray);
            &&& r.origin == ray.org
            &&& r.direction == rules.unit(ray.dir)
            &&& r.tmin == ray.tmin
            &&& r.tmax == ray.tmax
            &&& rules.product(r.inv_direction.x, r.direction.x) == Scalar::one()
            &&& rules.product(r.inv_direction.y, r.direction.y) == Scalar::one()
            &&& rules.product(r.inv_direction.z, r.direction.z) == Scalar::one()
        }),
{
}

/// A triangle is hit within its bounds and those of the ray, and from the front; one
/// that is hit from behind too is hit wherever it would be from the front alone.
pub proof fn law_triangle_is_hit_within_bounds(rules: ArithRules, ray: InternalRay, tri: LaneTriangle, t_max: Scalar)
    ensures
        rules.lane_hit(ray, tri, t_max) matches Some(hit) ==> {
            &&& Scalar::zero().le(hit.u) && hit.u.le(Scalar::one())
            &&& Scalar::zero().le(hit.v)
            &&& rules.sum(hit.u, hit.v).le(Scalar { key: BARY_LIMIT_KEY })
            &&& ray.tmin.le(hit.t) && hit.t.le(t_max)
        },
        !tri.double_sided && rules.lane_hit(ray, tri, t_max) is Some ==> rules.lane_hit(
            ray,
            LaneTriangle { double_sided: true, ..tri },
            t_max,
        ) == rules.lane_hit(ray, tri, t_max),
        !tri.double_sided ==> (rules.lane_hit(ray, tri, t_max) is Some ==> Scalar::zero().lt(
            rules.fused_dot(tri.edge1, rules.fused_cross(ray.direction, tri.edge2)),
        )),
{
}

/// Whether fused products of nothing add nothing, and fused products added to nothing
/// are products.
pub open spec fn fuses(rules: ArithRules) -> bool {
    &&& forall|a: Scalar, c: Scalar|
        a.is_finite() && c.is_finite() ==> #[trigger] rules.fused(a, Scalar::zero(), c) == c
    &&& forall|a: Scalar, c: Scalar|
        a.is_finite() && c.is_finite() ==> #[trigger] rules.fused(Scalar::zero(), a, c) == c
    &&& forall|a: Scalar, b: Scalar|
        a.is_finite() && b.is_finite() ==> #[trigger] rules.fused(a, b, Scalar::zero()) == rules.product(a, b)
}

/// A ray that looks straight down on a triangle in the plane finds it where it is: its
/// coordinates are how far along both edges it comes down, its distance how high it
/// starts, each as a part of the edges. It hits wherever it comes down between the
/// corners, their edges among them, within its ends.
pub proof fn law_lane_is_found_below(rules: ArithRules, ray: InternalRay, tri: LaneTriangle, t_max: Scalar, a: Scalar, b: Scalar)
    requires
        rules.keeps_ones(),
        rules.keeps_zeros(),
        rules.keeps_signs(),
        fuses(rules),
        ray.direction == (Point3 { x: Scalar::zero(), y: Scalar::zero(), z: Scalar::one().negated() }),
        tri.edge1 == (Point3 { x: a, y: Scalar::zero(), z: Scalar::zero() }),
        tri.edge2 == (Point3 { x: Scalar::zero(), y: b, z: Scalar::zero() }),
        a.is_finite() && Scalar::zero().lt(a),
        b.is_finite() && Scalar::zero().lt(b),
        rules.minus(ray.origin, tri.corner).is_finite(),
        ({
            let s = rules.minus(ray.origin, tri.corner);
            let det = rules.product(a, b);
            let inv = rules.quotient(Scalar::one(), det);
            &&& det.is_finite()
            &&& rules.product(s.x, b).is_finite() && rules.product(s.y, a).is_finite() && rules.product(s.z, a).is_finite()
            &&& rules.product(b, rules.product(s.z, a)).is_finite()
            &&& rules.product(rules.product(inv, rules.product(s.x, b)), det) == rules.product(s.x, b)
            &&& rules.product(rules.product(inv, rules.product(s.y, a)), det) == rules.product(s.y, a)
            &&& rules.product(rules.product(inv, rules.product(b, rules.product(s.z, a))), det) == rules.product(
                b,
                rules.product(s.z, a),
            )
        }),
    ensures
        rules.lane_hit(ray, tri, t_max) matches Some(hit) ==> {
            let s = rules.minus(ray.origin, tri.corner);
            let det = rules.product(a, b);
            &&& rules.product(hit.u, det) == rules.product(s.x, b)
            &&& rules.product(hit.v, det) == rules.product(s.y, a)
            &&& rules.product(hit.t, det) == rules.product(b, rules.product(s.z, a))
        },
        ({
            let s = rules.minus(ray.origin, tri.corner);
            let inv = rules.quotient(Scalar::one(), rules.product(a, b));
            let u = rules.product(inv, rules.product(s.x, b));
            let v = rules.product(inv, rules.product(s.y, a));
            let t = rules.product(inv, rules.product(b, rules.product(s.z, a)));
            &&& (Scalar { key: MIN_COSINE_KEY }).le(rules.product(a, b))
            &&& Scalar::zero().le(u) && Scalar::zero().le(v) && u.le(Scalar::one()) && rules.sum(u, v).le(Scalar::one())
            &&& ray.tmin.le(t) && t.le(t_max)
        }) ==> rules.lane_hit(ray, tri, t_max) is Some,
{
    let o = Scalar::zero();
    let m = Scalar::one().negated();
    let s = rules.minus(ray.origin, tri.corner);
    assert(rules.product(m, b) == b.negated()) by {
        assert(rules.product(Scalar::one().negated(), b) == rules.product(Scalar::one(), b).negated());
    }
    assert(o.negated() == o && b.negated().negated() == b);
    let h = rules.fused_cross(ray.direction, tri.edge2);
    assert(h == Point3 { x: b, y: o, z: o });
    assert(rules.fused_dot(tri.edge1, h) == rules.product(a, b));
    assert(rules.fused_dot(s, h) == rules.product(s.x, b));
    let q = rules.fused_cross(s, tri.edge1);
    let sa = rules.product(s.y, a);
    assert(q == Point3 { x: o, y: rules.product(s.z, a), z: sa.negated() });
    assert(rules.product(m, sa.negated()) == sa) by {
        assert(rules.product(Scalar::one().negated(), sa.negated()) == rules.product(
            Scalar::one(),
            sa.negated(),
        ).negated());
        assert(rules.product(Scalar::one(), sa.negated()) == sa.negated());
    }
    assert(rules.fused_dot(ray.direction, q) == sa);
    assert(rules.fused_dot(tri.edge2, q) == rules.product(b, rules.product(s.z, a)));
}

/// A ray crosses two planes where it reaches them, the nearer first, whichever it is;
/// and it is within a box once it has entered between all pairs of planes, and until
/// it leaves the first, between its own ends.
pub proof fn law_box_is_crossed_between_its_planes(rules: ArithRules, ray: InternalRay, b: AABB, t_max: Scalar, lo: Scalar, hi: Scalar, origin: Scalar, inv: Scalar)
    ensures
        ({
            let i = rules.slab(lo, hi, origin, inv);
            let s = rules.product(rules.difference(lo, origin), inv);
            let t = rules.product(rules.difference(hi, origin), inv);
            &&& i == rules.slab(hi, lo, origin, inv) || !s.ordered() || !t.ordered()
            &&& s.le(t) ==> i.near == s && i.far == t
            &&& t.le(s) ==> i.near == t && i.far == s
        }),
        ({
            let i = rules.box_interval(ray, b, t_max);
            let x = rules.slab(b.min.x, b.max.x, ray.origin.x, ray.inv_direction.x);
            let y = rules.slab(b.min.y, b.max.y, ray.origin.y, ray.inv_direction.y);
            let z = rules.slab(b.min.z, b.max.z, ray.origin.z, ray.inv_direction.z);
            &&& x.near.ordered() && y.near.ordered() && z.near.ordered() && ray.tmin.ordered() ==> x.near.le(i.near)
                && y.near.le(i.near) && z.near.le(i.near) && ray.tmin.le(i.near) && (i.near == x.near || i.near == y.near
                || i.near == z.near || i.near == ray.tmin)
            &&& x.far.ordered() && y.far.ordered() && z.far.ordered() && t_max.ordered() ==> i.far.le(x.far) && i.far.le(
                y.far,
            ) && i.far.le(z.far) && i.far.le(t_max) && (i.far == x.far || i.far == y.far || i.far == z.far || i.far
                == t_max)
        }),
{
}

/// For a triangle that is seen from both sides the order of its corners does not
/// matter: named in the other order, it is hit at the same distance, with its
/// coordinates exchanged, wherever what is computed of it turns its sign with the
/// order.
pub proof fn law_both_sides_are_hit_alike(rules: ArithRules, ray: InternalRay, tri: LaneTriangle, t_max: Scalar)
    requires
        tri.double_sided,
        ({
            let s = rules.minus(ray.origin, tri.corner);
            let h = rules.fused_cross(ray.direction, tri.edge2);
            let q = rules.fused_cross(s, tri.edge1);
            let th = rules.fused_cross(ray.direction, tri.edge1);
            let tq = rules.fused_cross(s, tri.edge2);
            let inv = rules.quotient(Scalar::one(), rules.fused_dot(tri.edge1, h));
            let turned_inv = rules.quotient(Scalar::one(), rules.fused_dot(tri.edge2, th));
            &&& rules.fused_dot(tri.edge2, th) == rules.fused_dot(tri.edge1, h).negated()
            &&& rules.product(turned_inv, rules.fused_dot(s, th)) == rules.product(
                inv,
                rules.fused_dot(ray.direction, q),
            )
            &&& rules.product(turned_inv, rules.fused_dot(ray.direction, tq)) == rules.product(
                inv,
                rules.fused_dot(s, h),
            )
            &&& rules.product(turned_inv, rules.fused_dot(tri.edge1, tq)) == rules.product(
                inv,
                rules.fused_dot(tri.edge2, q),
            )
        }),
    ensures
        rules.lane_hit(ray, tri, t_max) matches Some(hit) ==> {
            let turned = LaneTriangle { edge1: tri.edge2, edge2: tri.edge1, ..tri };
            &&& rules.sum(hit.v, hit.u) == rules.sum(hit.u, hit.v) && hit.v.le(Scalar::one()) ==> rules.lane_hit(
                ray,
                turned,
                t_max,
            ) == Some(TriangleHit { t: hit.t, u: hit.v, v: hit.u })
        },
{
}

/// The fused products count all axes alike, the vector product right-handed, wherever
/// fused products of nothing add nothing.
pub proof fn law_fused_products_follow_the_axes(rules: ArithRules, a: Scalar, b: Scalar)
    requires
        rules.keeps_zeros(),
        fuses(rules),
        a.is_finite(),
        b.is_finite(),
        rules.product(a, b).is_finite(),
    ensures
        ({
            let o = Scalar::zero();
            let ax = Point3 { x: a, y: o, z: o };
            let ay = Point3 { x: o, y: a, z: o };
            let az = Point3 { x: o, y: o, z: a };
            let bx = Point3 { x: b, y: o, z: o };
            let by = Point3 { x: o, y: b, z: o };
            let bz = Point3 { x: o, y: o, z: b };
            let c = rules.product(a, b);
            &&& rules.fused_dot(ax, bx) == c && rules.fused_dot(ay, by) == c && rules.fused_dot(az, bz) == c
            &&& rules.fused_dot(ax, by) == o && rules.fused_dot(ay, bz) == o && rules.fused_dot(az, bx) == o
            &&& rules.fused_dot(by, ax) == o && rules.fused_dot(bz, ay) == o && rules.fused_dot(bx, az) == o
            &&& rules.fused_cross(ax, by) == (Point3 { x: o, y: o, z: c })
            &&& rules.fused_cross(ay, bz) == (Point3 { x: c, y: o, z: o })
            &&& rules.fused_cross(az, bx) == (Point3 { x: o, y: c, z: o })
            &&& rules.fused_cross(ay, bx) == (Point3 { x: o, y: o, z: c.negated() })
            &&& rules.fused_cross(az, by) == (Point3 { x: c.negated(), y: o, z: o })
            &&& rules.fused_cross(ax, bz) == (Point3 { x: o, y: c.negated(), z: o })
        }),
{
    let o = Scalar::zero();
    assert(o.negated() == o);
    assert(rules.product(a, o) == o && rules.product(o, b) == o && rules.product(o, o) == o && rules.product(b, o) == o
        && rules.product(o, a) == o);
    assert(rules.product(a, b).negated().is_finite());
    assert(rules.fused(o, o, o) == o);
}

} // verus!
