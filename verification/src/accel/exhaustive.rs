//! Searches of a tree, against a look at every triangle.
use vstd::prelude::*;
use crate::aabb::AABB;
use crate::accel::bounds::{
    corner_of, has_numbers, is_tree_over, lemma_built_plan, lemma_child_box_includes, lemma_placed_triangle,
    lemma_under_child_in_range,
};
use crate::accel::builder::{has_bit, has_edges, is_built, padding, slot_of, BuildPlan};
use crate::accel::bvh::{has_slot_bit, BvhInner, Hit, InternalRay, RayRules, TriangleHit, TriangleHitSimd};
use crate::accel::cover::{law_every_chunk_under_root, law_every_triangle_in_one_slot};
use crate::accel::geometry::{is_buildable, lemma_prefix_lengths, triangles_of, vertices_of, Geometry};
use crate::accel::kernel::LaneTriangle;
use crate::accel::laws::{
    is_before, law_any_hit_misses_nothing, law_nearest_is_nearest, leads_to_hits, tests_boxes, tests_chunks, FirstHits,
};
use crate::accel::node::{Bvh8Node, FlatTriangles, TriSlot, WIDTH};
use crate::arith::{Arith, ArithRules};
use crate::scalar::{Point3, Scalar};

verus! {

impl ArithRules {
    /// A triangle by its corners, as rays are tested against it.
    pub open spec fn triangle(self, v0: Point3, v1: Point3, v2: Point3, double_sided: bool) -> LaneTriangle {
        LaneTriangle { corner: v0, edge1: self.minus(v1, v0), edge2: self.minus(v2, v0), double_sided }
    }

    /// A triangle of a mesh, as rays are tested against it.
    pub open spec fn mesh_triangle(self, geoms: Seq<Geometry>, g: int, j: int) -> LaneTriangle {
        self.triangle(
            corner_of(geoms, g, j, 0),
            corner_of(geoms, g, j, 1),
            corner_of(geoms, g, j, 2),
            geoms[g].is_double_sided(j),
        )
    }

    /// Whether the test of boxes loses no hit of a ray on some meshes: where the ray
    /// hits one of their triangles before a limit, it enters every box that holds a
    /// box around the triangle with its margin, and not after it hits the triangle.
    ///
    /// A hit may lie about a millionth of an edge outside its triangle, and the margin
    /// is a hundred-thousandth. So exact numbers do this where no edge is longer than
    /// ten; rounded ones do where the rounding leaves room in the margin as well.
    pub open spec fn enters_boxes(self, ray: InternalRay, geoms: Seq<Geometry>) -> bool {
        forall|g: int, j: int, around: AABB, b: AABB, t: Scalar|
            #![trigger self.mesh_hit(ray, geoms, g, j), self.grown_box(around), self.box_interval(ray, b, t)]
            0 <= g < geoms.len() && 0 <= j < geoms[g].tris@.len() && around.contains(corner_of(geoms, g, j, 0))
                && around.contains(corner_of(geoms, g, j, 1)) && around.contains(corner_of(geoms, g, j, 2))
                && b.includes(self.grown_box(around)) ==> (self.mesh_hit(ray, geoms, g, j) matches Some(h) ==> h.t.lt(t)
                ==> {
                let i = self.box_interval(ray, b, t);
                i.near.le(i.far) && i.near.le(h.t)
            })
    }

    /// Whether a ray never hits a triangle whose corners are one point.
    pub open spec fn ignores_points(self, ray: InternalRay) -> bool {
        forall|p: Point3, two_sided: bool|
            (#[trigger] self.lane_hit(ray, self.triangle(p, p, p, two_sided), Scalar::infinity())) is None
    }

    /// What is asked of an arithmetic for searches of some meshes with a ray to be
    /// exact: the margin around boxes loses nothing, the test of boxes loses no hit
    /// on the meshes, and triangles without extent are not hit.
    pub open spec fn searches_exactly(self, ray: InternalRay, geoms: Seq<Geometry>) -> bool {
        self.keeps_margin() && self.enters_boxes(ray, geoms) && self.ignores_points(ray)
    }

    /// Where a ray hits a triangle of a mesh, however far.
    pub open spec fn mesh_hit(self, ray: InternalRay, geoms: Seq<Geometry>, g: int, j: int) -> Option<TriangleHit> {
        self.lane_hit(ray, self.mesh_triangle(geoms, g, j), Scalar::infinity())
    }

    /// What a ray first hits in each chunk, however far.
    pub open spec fn first_hits(self, inner: BvhInner, ray: InternalRay) -> FirstHits {
        |c: int| self.first_in(inner, ray, c)
    }

    /// What a ray first hits in a chunk, however far.
    pub open spec fn first_in(self, inner: BvhInner, ray: InternalRay, c: int) -> Option<TriangleHitSimd> {
        self.closest_lane(ray, inner.soa_chunks@[c], Scalar::infinity(), inner.mask_of(c), WIDTH as nat)
    }
}

/// A limit does not change where a triangle is hit, only whether that counts.
proof fn lemma_lane_up_to(rules: ArithRules, ray: InternalRay, tri: LaneTriangle, t: Scalar)
    ensures
        rules.lane_hit(ray, tri, t) == (match rules.lane_hit(ray, tri, Scalar::infinity()) {
            Some(h) => if h.t.le(t) {
                Some(h)
            } else {
                None
            },
            None => None,
        }),
        rules.lane_hit(ray, tri, Scalar::infinity()) matches Some(h) ==> ray.tmin.le(h.t),
{
}

/// The nearest hit before a limit is the nearest of all, if that is before it.
proof fn lemma_closest_up_to(rules: ArithRules, ray: InternalRay, soa: FlatTriangles, t: Scalar, mask: u8, k: nat)
    requires
        k <= WIDTH,
    ensures
        rules.closest_lane(ray, soa, t, mask, k) == (match rules.closest_lane(
            ray,
            soa,
            Scalar::infinity(),
            mask,
            k,
        ) {
            Some(h) => if h.hit.t.lt(t) {
                Some(h)
            } else {
                None
            },
            None => None,
        }),
        rules.closest_lane(ray, soa, Scalar::infinity(), mask, k) matches Some(h) ==> {
            &&& h.lane < k
            &&& h.hit.t.lt(Scalar::infinity())
            &&& ray.tmin.le(h.hit.t)
            &&& rules.lane_hit(ray, soa.lane(h.lane as int, mask), Scalar::infinity()) == Some(h.hit)
        },
    decreases k,
{
    if k > 0 {
        lemma_closest_up_to(rules, ray, soa, t, mask, (k - 1) as nat);
        lemma_lane_up_to(rules, ray, soa.lane(k - 1, mask), t);
    }
}

/// No lane is hit before the nearest one.
proof fn lemma_closest_of_lanes(rules: ArithRules, ray: InternalRay, soa: FlatTriangles, mask: u8, k: nat, l: int)
    requires
        0 <= l < k <= WIDTH,
        rules.lane_hit(ray, soa.lane(l, mask), Scalar::infinity()) matches Some(h) && h.t.lt(Scalar::infinity()),
    ensures
        ({
            let h = rules.lane_hit(ray, soa.lane(l, mask), Scalar::infinity())->0;
            rules.closest_lane(ray, soa, Scalar::infinity(), mask, k) matches Some(f) && f.hit.t.le(h.t)
        }),
    decreases k,
{
    if l < k - 1 {
        lemma_closest_of_lanes(rules, ray, soa, mask, (k - 1) as nat, l);
    } else {
        lemma_closest_up_to(rules, ray, soa, Scalar::infinity(), mask, (k - 1) as nat);
    }
}

/// A ray that starts at or behind its origin tests chunks rightly: it finds the
/// first hit in each if that lies before the limit.
pub proof fn law_chunks_are_tested(inner: BvhInner, rules: ArithRules, ray: InternalRay)
    requires
        Scalar::zero().le(ray.tmin),
    ensures
        tests_chunks(inner, rules.ray_rules(), ray, rules.first_hits(inner, ray)),
{
    let first = rules.first_hits(inner, ray);
    assert forall|c: int, t: Scalar|
        #![trigger (rules.ray_rules().closest)(ray, inner.soa_chunks@[c], t, inner.mask_of(c))]
        0 <= c < inner.soa_chunks@.len() implies (rules.ray_rules().closest)(
        ray,
        inner.soa_chunks@[c],
        t,
        inner.mask_of(c),
    ) == (if is_before(first, c, t) {
        first(c)
    } else {
        None
    }) by {
        lemma_closest_up_to(rules, ray, inner.soa_chunks@[c], t, inner.mask_of(c), WIDTH as nat);
    }
    assert forall|c: int| (#[trigger] first(c)) matches Some(h) ==> h.lane < WIDTH && !h.hit.t.lt(Scalar::zero()) by {
        lemma_closest_up_to(
            rules,
            ray,
            inner.soa_chunks@[c],
            Scalar::infinity(),
            inner.mask_of(c),
            WIDTH as nat,
        );
    }
}

/// Each lane of each chunk holds a triangle of a mesh, or padding: one without
/// extent.
proof fn lemma_lane_holds(
    inner: BvhInner,
    geoms: Seq<Geometry>,
    plan: BuildPlan,
    rules: ArithRules,
    c: int,
    l: int,
)
    requires
        is_tree_over(inner, geoms, plan, rules),
        0 <= c < inner.soa_chunks@.len(),
        0 <= l < WIDTH,
    ensures
        ({
            let slot = inner.tri_slots@[WIDTH * c + l];
            let g = slot.geom_id as int;
            let j = slot.orig_idx as int;
            let tri = inner.soa_chunks@[c].lane(l, inner.mask_of(c));
            if slot == slot_of(padding()) {
                tri == rules.triangle(tri.corner, tri.corner, tri.corner, tri.double_sided)
            } else {
                &&& 0 <= g < geoms.len()
                &&& 0 <= j < geoms[g].tris@.len()
                &&& tri == rules.mesh_triangle(geoms, g, j)
            }
        }),
{
    let o = lemma_placed_triangle(inner, geoms, plan, rules, c, l);
    let t = plan.list[WIDTH * o + l];
    let soa = inner.soa_chunks[c];
    assert(soa.corner(l) == vertices_of(geoms)[t.v0 as int]);
    assert(has_edges(rules.build_rules(), vertices_of(geoms), soa, l, t));
    if WIDTH * o + l < triangles_of(geoms).len() {
        assert(has_bit(inner.double_sided_masks[c], l) <==> geoms[t.geom_id as int].is_double_sided(t.orig_idx as int));
        assert(inner.mask_of(c) == inner.double_sided_masks@[c]);
    }
}

/// A tree over some triangles has a root.
proof fn lemma_has_nodes(inner: BvhInner, geoms: Seq<Geometry>, plan: BuildPlan, rules: ArithRules)
    requires
        is_tree_over(inner, geoms, plan, rules),
    ensures
        inner.nodes@.len() > 0,
{
    law_every_chunk_under_root(inner, geoms, plan, rules.build_rules(), 0);
    assert(inner.is_under(0, 0));
    assert(!Bvh8Node::is_leaf(0));
}

/// Where a triangle of a mesh is in a tree.
proof fn lemma_triangle_has_lane(
    inner: BvhInner,
    geoms: Seq<Geometry>,
    plan: BuildPlan,
    rules: ArithRules,
    g: int,
    j: int,
) -> (at: (int, int))
    requires
        is_tree_over(inner, geoms, plan, rules),
        0 <= g < geoms.len(),
        0 <= j < geoms[g].tris@.len(),
    ensures
        inner.is_under(0, at.0),
        0 <= at.0 < inner.soa_chunks@.len(),
        0 <= at.1 < WIDTH,
        inner.soa_chunks@[at.0].lane(at.1, inner.mask_of(at.0)) == rules.mesh_triangle(geoms, g, j),
{
    law_every_triangle_in_one_slot(inner, geoms, plan, g, j);
    lemma_prefix_lengths(geoms, g + 1);
    assert(geoms.take(g + 1).drop_last() =~= geoms.take(g));
    assert(j <= u32::MAX);
    let slot = TriSlot { orig_idx: j as u32, geom_id: g as u32 };
    let k = choose|k: int| 0 <= k < inner.tri_slots@.len() && #[trigger] inner.tri_slots@[k] == slot;
    let c = k / WIDTH as int;
    let l = k % WIDTH as int;
    assert(WIDTH * c + l == k);
    lemma_lane_holds(inner, geoms, plan, rules, c, l);
    law_every_chunk_under_root(inner, geoms, plan, rules.build_rules(), c);
    (c, l)
}

/// The chunk in which a triangle lies is under the root, and hit no later than
/// the triangle.
proof fn lemma_triangle_is_first(
    inner: BvhInner,
    geoms: Seq<Geometry>,
    plan: BuildPlan,
    rules: ArithRules,
    ray: InternalRay,
    g: int,
    j: int,
) -> (c: int)
    requires
        is_tree_over(inner, geoms, plan, rules),
        0 <= g < geoms.len(),
        0 <= j < geoms[g].tris@.len(),
        rules.mesh_hit(ray, geoms, g, j) matches Some(h) && h.t.lt(ray.tmax),
    ensures
        inner.is_under(0, c),
        rules.first_in(inner, ray, c) matches Some(f) && f.hit.t.le(rules.mesh_hit(ray, geoms, g, j)->0.t),
{
    let (c, l) = lemma_triangle_has_lane(inner, geoms, plan, rules, g, j);
    lemma_closest_of_lanes(rules, ray, inner.soa_chunks@[c], inner.mask_of(c), WIDTH as nat, l);
    c
}

/// Whether any lane is hit, from the lanes one by one.
proof fn lemma_any_lane(rules: ArithRules, ray: InternalRay, soa: FlatTriangles, t: Scalar, mask: u8, k: nat)
    ensures
        rules.any_lane(ray, soa, t, mask, k) <==> exists|l: int|
            0 <= l < k && (#[trigger] rules.lane_hit(ray, soa.lane(l, mask), t)) is Some,
    decreases k,
{
    if k > 0 {
        lemma_any_lane(rules, ray, soa, t, mask, (k - 1) as nat);
    }
}

/// The bits of the boxes that a ray enters.
proof fn lemma_entered_bit(rules: ArithRules, ray: InternalRay, node: Bvh8Node, t: Scalar, k: nat, slot: int)
    requires
        k <= WIDTH,
        0 <= slot < WIDTH,
    ensures
        has_slot_bit(rules.entered(ray, node, t, k), slot) <==> slot < k && rules.enters(ray, node, t, slot),
    decreases k,
{
    let s: u32 = slot as u32;
    if k == 0 {
        assert(0u32 & (1u32 << s) == 0) by (bit_vector);
    } else {
        lemma_entered_bit(rules, ray, node, t, (k - 1) as nat, slot);
        let m = rules.entered(ray, node, t, (k - 1) as nat);
        let j: u32 = (k - 1) as u32;
        assert(((m | (1u32 << j)) & (1u32 << s) != 0) == ((m & (1u32 << s) != 0) || j == s)) by (bit_vector)
            requires
                j < 8,
                s < 8,
        ;
    }
}

/// A box over a triangle that is hit before a limit is entered, and not after the
/// triangle is hit.
proof fn lemma_box_is_entered(
    inner: BvhInner,
    geoms: Seq<Geometry>,
    plan: BuildPlan,
    rules: ArithRules,
    ray: InternalRay,
    n: int,
    slot: int,
    c: int,
    l: int,
    t: Scalar,
)
    requires
        is_tree_over(inner, geoms, plan, rules),
        has_numbers(geoms),
        rules.searches_exactly(ray, geoms),
        0 <= n < inner.nodes@.len(),
        0 <= slot < WIDTH,
        inner.is_under_child(n, slot, c),
        0 <= l < WIDTH,
        rules.lane_hit(ray, inner.soa_chunks@[c].lane(l, inner.mask_of(c)), Scalar::infinity()) matches Some(h)
            && h.t.lt(t),
    ensures
        ({
            let h = rules.lane_hit(ray, inner.soa_chunks@[c].lane(l, inner.mask_of(c)), Scalar::infinity())->0;
            let s = inner.tri_slots@[WIDTH * c + l];
            let hits = (rules.ray_rules().boxes)(ray, inner.nodes@[n], t);
            &&& has_slot_bit(hits.mask, slot)
            &&& hits.t[slot].le(h.t)
        }),
{
    lemma_under_child_in_range(inner, geoms, plan, rules, n, slot, c);
    lemma_lane_holds(inner, geoms, plan, rules, c, l);
    let s = inner.tri_slots@[WIDTH * c + l];
    let g = s.geom_id as int;
    let j = s.orig_idx as int;
    let around = lemma_child_box_includes(inner, geoms, plan, rules, n, slot, c, l);
    let b = inner.nodes@[n].child_box(slot);
    let v0 = corner_of(geoms, g, j, 0);
    let v1 = corner_of(geoms, g, j, 1);
    let v2 = corner_of(geoms, g, j, 2);
    let i = rules.box_interval(ray, b, t);
    assert(around.contains(v0) && around.contains(v1) && around.contains(v2));
    assert(b.includes(rules.grown_box(around)));
    assert(i.near.le(i.far) && i.near.le(rules.mesh_hit(ray, geoms, g, j)->0.t));
    lemma_entered_bit(rules, ray, inner.nodes@[n], t, WIDTH as nat, slot);
}

/// A test of boxes that loses no hit of a ray loses none in a tree.
proof fn lemma_tests_boxes(
    inner: BvhInner,
    geoms: Seq<Geometry>,
    plan: BuildPlan,
    rules: ArithRules,
    ray: InternalRay,
)
    requires
        is_tree_over(inner, geoms, plan, rules),
        has_numbers(geoms),
        rules.searches_exactly(ray, geoms),
    ensures
        tests_boxes(inner, rules.ray_rules(), ray, rules.first_hits(inner, ray)),
{
    let first = rules.first_hits(inner, ray);
    assert forall|n: int, slot: int, c: int, t: Scalar|
        #![trigger inner.is_under_child(n, slot, c), (rules.ray_rules().boxes)(ray, inner.nodes@[n], t)]
        0 <= n < inner.nodes@.len() && 0 <= slot < WIDTH && inner.is_under_child(n, slot, c) && is_before(
            first,
            c,
            t,
        ) implies ({
        let hits = (rules.ray_rules().boxes)(ray, inner.nodes@[n], t);
        has_slot_bit(hits.mask, slot) && hits.t[slot].le(first(c)->0.hit.t)
    }) by {
        let f = first(c)->0;
        lemma_closest_up_to(
            rules,
            ray,
            inner.soa_chunks@[c],
            Scalar::infinity(),
            inner.mask_of(c),
            WIDTH as nat,
        );
        lemma_box_is_entered(inner, geoms, plan, rules, ray, n, slot, c, f.lane as int, t);
    }
}

/// Whether a ray hits no triangle just where it ends.
pub open spec fn ends_off_triangles(rules: ArithRules, ray: InternalRay, geoms: Seq<Geometry>) -> bool {
    forall|g: int, j: int|
        0 <= g < geoms.len() && 0 <= j < geoms[g].tris@.len() ==> ((#[trigger] rules.mesh_hit(ray, geoms, g, j)) matches Some(
            h,
        ) ==> h.t != ray.tmax)
}

/// A chunk that is hit at all holds a triangle that is hit before the ray ends.
proof fn lemma_hit_chunk(
    inner: BvhInner,
    geoms: Seq<Geometry>,
    plan: BuildPlan,
    rules: ArithRules,
    ray: InternalRay,
    c: int,
) -> (l: int)
    requires
        is_tree_over(inner, geoms, plan, rules),
        rules.ignores_points(ray),
        ends_off_triangles(rules, ray, geoms),
        0 <= c < inner.soa_chunks@.len(),
        inner.hits_chunk(rules.ray_rules(), ray, c),
    ensures
        0 <= l < WIDTH,
        rules.lane_hit(ray, inner.soa_chunks@[c].lane(l, inner.mask_of(c)), Scalar::infinity()) matches Some(h)
            && h.t.lt(ray.tmax),
        ({
            let s = inner.tri_slots@[WIDTH * c + l];
            is_hit_before_end(rules, ray, geoms, s.geom_id as int, s.orig_idx as int)
        }),
{
    let soa = inner.soa_chunks@[c];
    let mask = inner.mask_of(c);
    lemma_any_lane(rules, ray, soa, ray.tmax, mask, WIDTH as nat);
    let l = choose|l: int| 0 <= l < WIDTH && (#[trigger] rules.lane_hit(ray, soa.lane(l, mask), ray.tmax)) is Some;
    lemma_lane_up_to(rules, ray, soa.lane(l, mask), ray.tmax);
    lemma_lane_holds(inner, geoms, plan, rules, c, l);
    let s = inner.tri_slots@[WIDTH * c + l];
    let h = rules.mesh_hit(ray, geoms, s.geom_id as int, s.orig_idx as int);
    l
}

/// Whether a ray hits a triangle of a mesh before it ends.
pub open spec fn is_hit_before_end(rules: ArithRules, ray: InternalRay, geoms: Seq<Geometry>, g: int, j: int) -> bool {
    &&& 0 <= g < geoms.len()
    &&& 0 <= j < geoms[g].tris@.len()
    &&& rules.mesh_hit(ray, geoms, g, j) matches Some(h) && h.t.lt(ray.tmax)
}

/// A test of boxes that loses no hit of a ray leads to every chunk of a tree that
/// the ray hits.
proof fn lemma_leads_to_hits(
    inner: BvhInner,
    geoms: Seq<Geometry>,
    plan: BuildPlan,
    rules: ArithRules,
    ray: InternalRay,
)
    requires
        is_tree_over(inner, geoms, plan, rules),
        has_numbers(geoms),
        rules.searches_exactly(ray, geoms),
        ends_off_triangles(rules, ray, geoms),
    ensures
        leads_to_hits(inner, rules.ray_rules(), ray),
{
    let build = rules.ray_rules();
    assert forall|n: int, slot: int, c: int|
        0 <= n < inner.nodes@.len() && 0 <= slot < WIDTH && #[trigger] inner.is_under_child(n, slot, c)
            && inner.hits_chunk(build, ray, c) implies inner.is_candidate(
        n,
        (build.boxes)(ray, inner.nodes@[n], ray.tmax),
        ray.tmax,
        slot,
    ) by {
        lemma_under_child_in_range(inner, geoms, plan, rules, n, slot, c);
        let l = lemma_hit_chunk(inner, geoms, plan, rules, ray, c);
        lemma_box_is_entered(inner, geoms, plan, rules, ray, n, slot, c, l, ray.tmax);
    }
}

/// Whether a hit is that of its triangle, before the end of the ray.
pub open spec fn is_hit_of_triangle(rules: ArithRules, ray: InternalRay, geoms: Seq<Geometry>, found: Hit) -> bool {
    let g = found.geom_id as int;
    let j = found.prim_id as int;
    &&& is_hit_before_end(rules, ray, geoms, g, j)
    &&& rules.mesh_hit(ray, geoms, g, j) == Some(TriangleHit { t: found.t, u: found.u, v: found.v })
}

proof fn lemma_search_in_tree(
    inner: BvhInner,
    geoms: Seq<Geometry>,
    plan: BuildPlan,
    rules: ArithRules,
    ray: InternalRay,
)
    requires
        is_tree_over(inner, geoms, plan, rules),
        has_numbers(geoms),
        Scalar::zero().le(ray.tmin),
        rules.searches_exactly(ray, geoms),
    ensures
        forall|g: int, j: int| #[trigger]
            is_hit_before_end(rules, ray, geoms, g, j) ==> (inner.nearest(rules.ray_rules(), ray) matches Some(found)
                && found.t.le(rules.mesh_hit(ray, geoms, g, j)->0.t)),
        inner.nearest(rules.ray_rules(), ray) matches Some(found) ==> is_hit_of_triangle(rules, ray, geoms, found),
{
    let first = rules.first_hits(inner, ray);
    law_chunks_are_tested(inner, rules, ray);
    lemma_tests_boxes(inner, geoms, plan, rules, ray);
    lemma_has_nodes(inner, geoms, plan, rules);
    law_nearest_is_nearest(inner, rules.ray_rules(), ray, first);
    let nearest = inner.nearest(rules.ray_rules(), ray);
    assert forall|g: int, j: int| #[trigger] is_hit_before_end(rules, ray, geoms, g, j) implies (nearest matches Some(
        found,
    ) && found.t.le(rules.mesh_hit(ray, geoms, g, j)->0.t)) by {
        let c = lemma_triangle_is_first(inner, geoms, plan, rules, ray, g, j);
        assert(inner.is_under(0, c));
        assert(is_before(first, c, ray.tmax));
        if let Some(found) = nearest {
            assert(!is_before(first, c, found.t));
            let d = choose|d: int|
                #[trigger] inner.is_under(0, d) && is_before(first, d, ray.tmax) && found == inner.in_scene(
                    first(d)->0,
                    d,
                );
            assert(found.t == first(d)->0.hit.t);
        }
    }
    if let Some(found) = nearest {
        let d = choose|d: int|
            #[trigger] inner.is_under(0, d) && is_before(first, d, ray.tmax) && found == inner.in_scene(
                first(d)->0,
                d,
            );
        law_every_chunk_under_root(inner, geoms, plan, rules.build_rules(), d);
        let f = first(d)->0;
        lemma_closest_up_to(
            rules,
            ray,
            inner.soa_chunks@[d],
            Scalar::infinity(),
            inner.mask_of(d),
            WIDTH as nat,
        );
        lemma_lane_holds(inner, geoms, plan, rules, d, f.lane as int);
    }
}

/// Meshes with a triangle have triangles.
proof fn lemma_some_triangles(geoms: Seq<Geometry>, g: int, j: int)
    requires
        0 <= g < geoms.len(),
        0 <= j < geoms[g].tris@.len(),
    ensures
        triangles_of(geoms).len() > 0,
{
    lemma_prefix_lengths(geoms, g + 1);
    assert(geoms.take(g + 1).drop_last() =~= geoms.take(g));
}

/// A search finds the nearest triangle of all meshes. Where some triangle is hit
/// before the ray ends, one is found, and none is hit nearer; what is found is
/// where the ray hits that triangle, before it ends. So nothing is found where no
/// triangle is hit.
pub proof fn law_search_finds_nearest_triangle<M: Arith>(
    inner: BvhInner,
    geoms: Seq<Geometry>,
    math: M,
    rules: ArithRules,
    ray: InternalRay,
)
    requires
        is_built(inner, geoms, math),
        rules.describe(math),
        is_buildable(geoms),
        has_numbers(geoms),
        Scalar::zero().le(ray.tmin),
        rules.searches_exactly(ray, geoms),
    ensures
        forall|g: int, j: int| #[trigger]
            is_hit_before_end(rules, ray, geoms, g, j) ==> (inner.nearest(rules.ray_rules(), ray) matches Some(found)
                && found.t.le(rules.mesh_hit(ray, geoms, g, j)->0.t)),
        inner.nearest(rules.ray_rules(), ray) matches Some(found) ==> is_hit_of_triangle(rules, ray, geoms, found),
{
    let plan = lemma_built_plan(inner, geoms, math, rules);
    if triangles_of(geoms).len() > 0 {
        lemma_search_in_tree(inner, geoms, plan, rules, ray);
    } else {
        assert forall|g: int, j: int| #[trigger] is_hit_before_end(rules, ray, geoms, g, j) implies false by {
            lemma_some_triangles(geoms, g, j);
        }
    }
}

/// A ray that does not end on a triangle is blocked exactly if it hits some
/// triangle of some mesh before it ends.
pub proof fn law_only_triangles_block<M: Arith>(
    inner: BvhInner,
    geoms: Seq<Geometry>,
    math: M,
    rules: ArithRules,
    ray: InternalRay,
)
    requires
        is_built(inner, geoms, math),
        rules.describe(math),
        is_buildable(geoms),
        has_numbers(geoms),
        rules.searches_exactly(ray, geoms),
        ends_off_triangles(rules, ray, geoms),
    ensures
        inner.is_hit(rules.ray_rules(), ray) <==> exists|g: int, j: int| #[trigger]
            is_hit_before_end(rules, ray, geoms, g, j),
{
    let plan = lemma_built_plan(inner, geoms, math, rules);
    if triangles_of(geoms).len() > 0 {
        lemma_leads_to_hits(inner, geoms, plan, rules, ray);
        lemma_has_nodes(inner, geoms, plan, rules);
        law_any_hit_misses_nothing(inner, rules.ray_rules(), ray);
        if inner.is_hit(rules.ray_rules(), ray) {
            let c = choose|c: int| #[trigger] inner.is_under(0, c) && inner.hits_chunk(rules.ray_rules(), ray, c);
            law_every_chunk_under_root(inner, geoms, plan, rules.build_rules(), c);
            let l = lemma_hit_chunk(inner, geoms, plan, rules, ray, c);
            let s = inner.tri_slots@[WIDTH * c + l];
            assert(is_hit_before_end(rules, ray, geoms, s.geom_id as int, s.orig_idx as int));
        }
        if exists|g: int, j: int| #[trigger] is_hit_before_end(rules, ray, geoms, g, j) {
            let (g, j) = choose|g: int, j: int| #[trigger] is_hit_before_end(rules, ray, geoms, g, j);
            let (c, l) = lemma_triangle_has_lane(inner, geoms, plan, rules, g, j);
            let soa = inner.soa_chunks@[c];
            let mask = inner.mask_of(c);
            lemma_lane_up_to(rules, ray, soa.lane(l, mask), ray.tmax);
            lemma_any_lane(rules, ray, soa, ray.tmax, mask, WIDTH as nat);
            assert(rules.lane_hit(ray, soa.lane(l, mask), ray.tmax) is Some);
            assert(inner.hits_chunk(rules.ray_rules(), ray, c));
        }
    } else {
        assert forall|g: int, j: int| #[trigger] is_hit_before_end(rules, ray, geoms, g, j) implies false by {
            lemma_some_triangles(geoms, g, j);
        }
    }
}

/// A ray that does not end on a triangle is blocked exactly if it has a nearest
/// hit.
pub proof fn law_blocked_where_hit<M: Arith>(
    inner: BvhInner,
    geoms: Seq<Geometry>,
    math: M,
    rules: ArithRules,
    ray: InternalRay,
)
    requires
        is_built(inner, geoms, math),
        rules.describe(math),
        is_buildable(geoms),
        has_numbers(geoms),
        Scalar::zero().le(ray.tmin),
        rules.searches_exactly(ray, geoms),
        ends_off_triangles(rules, ray, geoms),
    ensures
        inner.is_hit(rules.ray_rules(), ray) <==> inner.nearest(rules.ray_rules(), ray) is Some,
{
    law_search_finds_nearest_triangle(inner, geoms, math, rules, ray);
    law_only_triangles_block(inner, geoms, math, rules, ray);
    if let Some(found) = inner.nearest(rules.ray_rules(), ray) {
        assert(is_hit_before_end(rules, ray, geoms, found.geom_id as int, found.prim_id as int));
    }
}

/// Nothing is hit in a tree over meshes without triangles.
pub proof fn law_nothing_to_hit<M: Arith>(inner: BvhInner, geoms: Seq<Geometry>, math: M, rules: RayRules, ray: InternalRay)
    requires
        is_built(inner, geoms, math),
        triangles_of(geoms).len() == 0,
    ensures
        inner.nearest(rules, ray) is None,
        !inner.is_hit(rules, ray),
{
}

} // verus!
