//! The boxes of a tree hold the triangles under them.
use vstd::prelude::*;
use vstd::seq_lib::to_multiset_contains;
use crate::aabb::{empty_box, law_union_holds, AABB};
use crate::accel::builder::{chunk_box, chunks_for, is_built, padding, placed, range, slot_of, BuildPlan};
use crate::accel::bvh::BvhInner;
use crate::accel::collapse::{
    frontier, has_slot, is_collapsed, largest_inner, law_slots_match_nodes, lemma_collapsed_slot, octants, opened, slots_of,
    wide_child, wide_nodes, widened,
};
use crate::accel::cover::{lemma_largest_is_inner, lemma_under_collapsed};
use crate::accel::geometry::{is_buildable, triangles_of, vertices_of, BuildTri, Geometry};
use crate::accel::kernel::law_arithmetic_settles_all;
use crate::accel::math::BuildRules;
use crate::accel::node::WIDTH;
use crate::accel::split::box_around;
use crate::accel::tree::{size, weight, TreeView};
use crate::arith::{Arith, ArithRules};
use crate::scalar::Point3;

verus! {

/// A corner of a triangle of a mesh. Corners are counted from the first one of
/// the mesh, among those of all meshes.
pub open spec fn corner_of(geoms: Seq<Geometry>, g: int, j: int, k: int) -> Point3 {
    vertices_of(geoms)[vertices_of(geoms.take(g)).len() + geoms[g].tris@[j][k]]
}

/// Whether a tree was built over some meshes by an arithmetic.
pub open spec fn is_tree_over(inner: BvhInner, geoms: Seq<Geometry>, plan: BuildPlan, rules: ArithRules) -> bool {
    &&& inner.valid()
    &&& is_buildable(geoms)
    &&& triangles_of(geoms).len() > 0
    &&& plan.lays_out(inner, geoms)
    &&& plan.follows(rules.build_rules(), inner, geoms)
}

/// A triangle that is listed is that of its mesh.
proof fn lemma_listed_triangle(geoms: Seq<Geometry>, i: int)
    requires
        geoms.len() < u32::MAX,
        0 <= i < triangles_of(geoms).len() <= u32::MAX,
    ensures
        ({
            let t = triangles_of(geoms)[i];
            let g = t.geom_id as int;
            let j = t.orig_idx as int;
            let offset = vertices_of(geoms.take(g)).len() as int;
            &&& 0 <= g < geoms.len()
            &&& 0 <= j < geoms[g].tris@.len()
            &&& t.v0 == (geoms[g].tris@[j][0] + offset) as u32
            &&& t.v1 == (geoms[g].tris@[j][1] + offset) as u32
            &&& t.v2 == (geoms[g].tris@[j][2] + offset) as u32
        }),
    decreases geoms.len(),
{
    if geoms.len() > 0 {
        let rest = geoms.drop_last();
        let a = triangles_of(rest);
        if i < a.len() {
            lemma_listed_triangle(rest, i);
            let g = a[i].geom_id as int;
            assert(rest.take(g) =~= geoms.take(g));
            assert(rest[g] == geoms[g]);
        } else {
            assert(geoms.take(geoms.len() - 1) =~= rest);
        }
    }
}

/// Where the triangle in a lane is in the plan's list, and that it is that of its
/// mesh unless it is padding.
pub proof fn lemma_placed_triangle(
    inner: BvhInner,
    geoms: Seq<Geometry>,
    plan: BuildPlan,
    rules: ArithRules,
    c: int,
    l: int,
) -> (o: int)
    requires
        is_tree_over(inner, geoms, plan, rules),
        0 <= c < inner.soa_chunks@.len(),
        0 <= l < WIDTH,
    ensures
        o == plan.order[c],
        0 <= o < chunks_for(triangles_of(geoms).len() as int),
        placed(plan.list, plan.order, WIDTH * c + l) == plan.list[WIDTH * o + l],
        inner.tri_slots@[WIDTH * c + l] == slot_of(plan.list[WIDTH * o + l]),
        ({
            let t = plan.list[WIDTH * o + l];
            let g = t.geom_id as int;
            let j = t.orig_idx as int;
            if WIDTH * o + l < triangles_of(geoms).len() {
                &&& 0 <= g < geoms.len()
                &&& 0 <= j < geoms[g].tris@.len()
                &&& vertices_of(geoms)[t.v0 as int] == corner_of(geoms, g, j, 0)
                &&& vertices_of(geoms)[t.v1 as int] == corner_of(geoms, g, j, 1)
                &&& vertices_of(geoms)[t.v2 as int] == corner_of(geoms, g, j, 2)
            } else {
                t == padding()
            }
        }),
{
    let n = triangles_of(geoms).len() as int;
    let m = chunks_for(n);
    let k = WIDTH * c + l;
    let all = triangles_of(geoms);
    let o = plan.order[c] as int;
    assert(k / WIDTH as int == c && k % WIDTH as int == l);
    to_multiset_contains(plan.order, plan.order[c]);
    to_multiset_contains(range(m), plan.order[c]);
    assert(plan.order.contains(plan.order[c]));
    assert(range(m).contains(plan.order[c]));
    let q = WIDTH * o + l;
    let t = plan.list[q];
    assert(inner.tri_slots[k] == slot_of(placed(plan.list, plan.order, k)));
    if q < n {
        let listed = plan.list.take(n);
        assert(listed[q] == t);
        to_multiset_contains(listed, t);
        to_multiset_contains(all, t);
        assert(all.contains(t));
        let i = choose|i: int| 0 <= i < all.len() && all[i] == t;
        lemma_listed_triangle(geoms, i);
        let g = t.geom_id as int;
        let j = t.orig_idx as int;
        assert(geoms[g].tris@[j][0] + vertices_of(geoms.take(g)).len() < vertices_of(geoms).len());
        assert(geoms[g].tris@[j][1] + vertices_of(geoms.take(g)).len() < vertices_of(geoms).len());
        assert(geoms[g].tris@[j][2] + vertices_of(geoms.take(g)).len() < vertices_of(geoms).len());
    }
    o
}

impl ArithRules {
    /// Whether the margin around a box never loses a point of it. Rounding to the
    /// nearest number does not.
    pub open spec fn keeps_margin(self) -> bool {
        forall|b: AABB, p: Point3| b.contains(p) ==> #[trigger] self.grown_box(b).contains(p)
    }
}

/// The box around a chunk holds the corners of its triangles.
proof fn lemma_chunk_box_holds(vertices: Seq<Point3>, list: Seq<BuildTri>, n: int, c: int, lanes: nat, l: int, p: Point3)
    requires
        0 <= l < lanes,
        WIDTH * c + l < n,
        p.x.ordered() && p.y.ordered() && p.z.ordered(),
        ({
            let t = list[WIDTH * c + l];
            p == vertices[t.v0 as int] || p == vertices[t.v1 as int] || p == vertices[t.v2 as int]
        }),
    ensures
        chunk_box(vertices, list, n, c, lanes).contains(p),
    decreases lanes,
{
    if l < lanes - 1 {
        lemma_chunk_box_holds(vertices, list, n, c, (lanes - 1) as nat, l, p);
    }
}

/// The box around some chunks holds what the box of one of them holds.
proof fn lemma_box_around_holds(s: Seq<usize>, boxes: Seq<AABB>, k: int, p: Point3)
    requires
        0 <= k < s.len(),
        boxes[s[k] as int].contains(p),
    ensures
        box_around(s, boxes).contains(p),
    decreases s.len(),
{
    let f = |b: AABB, c: usize| b.union(boxes[c as int]);
    let rest = s.drop_last();
    assert(s.fold_left(empty_box(), f) == f(rest.fold_left(empty_box(), f), s.last()));
    law_union_holds(rest.fold_left(empty_box(), f), boxes[s.last() as int], p);
    if k < s.len() - 1 {
        lemma_box_around_holds(rest, boxes, k, p);
    }
}

/// Whether a node is part of a sound tree.
spec fn is_in_tree(t: TreeView, i: int) -> bool {
    exists|from: int, first: int| #[trigger] t.is_tree(i, from, first)
}

/// Whether all listed nodes are part of a sound tree.
spec fn are_in_tree(t: TreeView, list: Seq<usize>) -> bool {
    forall|j: int| 0 <= j < list.len() ==> is_in_tree(t, #[trigger] list[j] as int)
}

/// The children of a node are part of the tree too.
proof fn lemma_children_in_tree(t: TreeView, i: int)
    requires
        is_in_tree(t, i),
        !t.nodes[i].is_leaf(),
    ensures
        0 <= i < t.nodes[i].left(),
        t.nodes[i].left() + 1 < t.nodes.len(),
        is_in_tree(t, t.nodes[i].left()),
        is_in_tree(t, t.nodes[i].left() + 1),
{
    let (from, first) = choose|from: int, first: int| #[trigger] t.is_tree(i, from, first);
    assert(t.is_tree(from, from + 2, first));
    assert(t.is_tree(from + 1, from + 2 + size(t.nodes, from), first + weight(t.nodes, from)));
}

proof fn lemma_widened_in_tree(rules: BuildRules, t: TreeView, list: Seq<usize>)
    requires
        are_in_tree(t, list),
        t.nodes.len() <= u32::MAX,
        list.len() <= WIDTH,
    ensures
        are_in_tree(t, widened(rules, t.nodes, list)),
        widened(rules, t.nodes, list).len() <= WIDTH,
    decreases WIDTH - list.len(),
{
    lemma_largest_is_inner(rules, t.nodes, list, list.len());
    match largest_inner(rules, t.nodes, list, list.len()).0 {
        Some(i) => {
            if list.len() < WIDTH {
                let w = opened(t.nodes, list, i);
                let d = list[i] as int;
                assert(is_in_tree(t, list[i] as int));
                lemma_children_in_tree(t, d);
                assert forall|j: int| 0 <= j < w.len() implies is_in_tree(t, #[trigger] w[j] as int) by {
                    if j < list.len() - 1 && j != i {
                        assert(w[j] == list[j]);
                    } else if j < list.len() - 1 {
                        assert(w[j] == list[list.len() - 1]);
                    }
                }
                lemma_widened_in_tree(rules, t, w);
            }
        },
        None => {},
    }
}

/// The nodes that become the children of a wide node are part of the tree.
proof fn lemma_frontier_in_tree(rules: BuildRules, t: TreeView, i: int)
    requires
        is_in_tree(t, i),
        t.nodes.len() <= u32::MAX,
    ensures
        are_in_tree(t, frontier(rules, t.nodes, i)),
        frontier(rules, t.nodes, i).len() <= WIDTH,
{
    if !t.nodes[i].is_leaf() {
        lemma_children_in_tree(t, i);
        let l = t.nodes[i].left() as usize;
        lemma_widened_in_tree(rules, t, seq![l, (l + 1) as usize]);
    }
}

/// The node in a slot of a wide node is part of the tree.
proof fn lemma_wide_child_in_tree(rules: BuildRules, t: TreeView, i: int, slot: int)
    requires
        is_in_tree(t, i),
        t.nodes.len() <= u32::MAX,
        0 <= slot < WIDTH,
    ensures
        wide_child(rules, t.nodes, i, slot) matches Some(d) ==> is_in_tree(t, d),
{
    let list = frontier(rules, t.nodes, i);
    let octs = octants(rules, t.nodes, list);
    lemma_frontier_in_tree(rules, t, i);
    law_slots_match_nodes(octs);
    if let Some(j) = slots_of(octs)[slot] {
        assert(has_slot(slots_of(octs), j));
        assert(is_in_tree(t, list[j as int] as int));
    }
}

/// Every wide node among those made of a node is made of some node of the tree.
proof fn lemma_made_of_node(
    rules: BuildRules,
    t: TreeView,
    i: int,
    inner: BvhInner,
    at: int,
    k: nat,
    n: int,
) -> (d: int)
    requires
        is_in_tree(t, i),
        t.nodes.len() <= u32::MAX,
        is_collapsed(rules, t.nodes, i, inner.nodes@, at),
        k <= WIDTH,
        at <= n < at + wide_nodes(rules, t.nodes, i, k),
    ensures
        is_in_tree(t, d),
        is_collapsed(rules, t.nodes, d, inner.nodes@, n),
    decreases t.nodes.len() - i, k,
{
    if n == at {
        i
    } else if n < at + wide_nodes(rules, t.nodes, i, (k - 1) as nat) {
        lemma_made_of_node(rules, t, i, inner, at, (k - 1) as nat, n)
    } else {
        let slot = k - 1;
        lemma_wide_child_in_tree(rules, t, i, slot);
        lemma_collapsed_slot(rules, t.nodes, i, inner.nodes@, at, slot);
        let d = wide_child(rules, t.nodes, i, slot)->0;
        let from = at + wide_nodes(rules, t.nodes, i, slot as nat);
        lemma_made_of_node(rules, t, d, inner, from, WIDTH as nat, n)
    }
}

/// The box around some chunks holds the box of each of them, if that is made of
/// numbers.
proof fn lemma_box_around_includes(s: Seq<usize>, boxes: Seq<AABB>, k: int)
    requires
        0 <= k < s.len(),
        boxes[s[k] as int].includes(boxes[s[k] as int]),
    ensures
        box_around(s, boxes).includes(boxes[s[k] as int]),
    decreases s.len(),
{
    let f = |b: AABB, c: usize| b.union(boxes[c as int]);
    let rest = s.drop_last();
    assert(s.fold_left(empty_box(), f) == f(rest.fold_left(empty_box(), f), s.last()));
    if k < s.len() - 1 {
        lemma_box_around_includes(rest, boxes, k);
    }
}

/// The box of a child is that around a run of chunks, and what lies under the
/// child lies in the run.
proof fn lemma_child_box(
    inner: BvhInner,
    geoms: Seq<Geometry>,
    plan: BuildPlan,
    rules: ArithRules,
    n: int,
    slot: int,
    c: int,
) -> (run: (Seq<usize>, int))
    requires
        is_tree_over(inner, geoms, plan, rules),
        0 <= n < inner.nodes@.len(),
        0 <= slot < WIDTH,
        inner.is_under_child(n, slot, c),
    ensures
        0 <= c < inner.soa_chunks@.len(),
        inner.nodes@[n].child_box(slot) == box_around(run.0, plan.chunks.boxes),
        0 <= run.1 < run.0.len(),
        run.0[run.1] == plan.order[c],
{
    let build = rules.build_rules();
    let t = plan.tree();
    assert(t.is_tree(0, 1, 0));
    let i = lemma_made_of_node(build, t, 0, inner, 0, WIDTH as nat, n);
    lemma_collapsed_slot(build, t.nodes, i, inner.nodes@, n, slot);
    lemma_wide_child_in_tree(build, t, i, slot);
    let d = wide_child(build, t.nodes, i, slot)->0;
    let (from, first) = choose|from: int, first: int| #[trigger] t.is_tree(d, from, first);
    let child = inner.nodes@[n].children[slot];
    lemma_under_collapsed(build, t, d, from, first, inner, child, c);
    (t.items(d, first), c - first)
}

/// Only chunks of the tree lie under a child.
pub proof fn lemma_under_child_in_range(
    inner: BvhInner,
    geoms: Seq<Geometry>,
    plan: BuildPlan,
    rules: ArithRules,
    n: int,
    slot: int,
    c: int,
)
    requires
        is_tree_over(inner, geoms, plan, rules),
        0 <= n < inner.nodes@.len(),
        0 <= slot < WIDTH,
        inner.is_under_child(n, slot, c),
    ensures
        0 <= c < inner.soa_chunks@.len(),
{
    let _ = lemma_child_box(inner, geoms, plan, rules, n, slot, c);
}

/// The box of a child holds the box around each chunk under it, with the margin,
/// as long as that loses nothing; and the box around a chunk holds the corners of
/// its triangles.
pub proof fn lemma_child_box_includes(
    inner: BvhInner,
    geoms: Seq<Geometry>,
    plan: BuildPlan,
    rules: ArithRules,
    n: int,
    slot: int,
    c: int,
    l: int,
) -> (around: AABB)
    requires
        is_tree_over(inner, geoms, plan, rules),
        rules.keeps_margin(),
        has_numbers(geoms),
        0 <= n < inner.nodes@.len(),
        0 <= slot < WIDTH,
        inner.is_under_child(n, slot, c),
        0 <= l < WIDTH,
        inner.tri_slots@[WIDTH * c + l] != slot_of(padding()),
    ensures
        0 <= c < inner.soa_chunks@.len(),
        inner.nodes@[n].child_box(slot).includes(rules.grown_box(around)),
        ({
            let s = inner.tri_slots@[WIDTH * c + l];
            forall|k: int|
                0 <= k < 3 ==> around.contains(#[trigger] corner_of(geoms, s.geom_id as int, s.orig_idx as int, k))
        }),
{
    let total = triangles_of(geoms).len() as int;
    let vertices = vertices_of(geoms);
    let (run, at) = lemma_child_box(inner, geoms, plan, rules, n, slot, c);
    let o = lemma_placed_triangle(inner, geoms, plan, rules, c, l);
    let around = chunk_box(vertices, plan.list, total, o, WIDTH as nat);
    let s = inner.tri_slots@[WIDTH * c + l];
    let t = plan.list[WIDTH * o + l];
    assert forall|k: int| 0 <= k < 3 implies around.contains(
        #[trigger] corner_of(geoms, s.geom_id as int, s.orig_idx as int, k),
    ) by {
        let p = corner_of(geoms, s.geom_id as int, s.orig_idx as int, k);
        let i = if k == 0 {
            t.v0 as int
        } else if k == 1 {
            t.v1 as int
        } else {
            t.v2 as int
        };
        assert(p == vertices[i]);
        assert(is_number(vertices[i]));
        lemma_chunk_box_holds(vertices, plan.list, total, o, WIDTH as nat, l, p);
    }
    let p = corner_of(geoms, s.geom_id as int, s.orig_idx as int, 0);
    assert(around.contains(p));
    assert(rules.grown_box(around).contains(p));
    assert(plan.chunks.boxes[o] == rules.grown_box(around));
    lemma_box_around_includes(run, plan.chunks.boxes, at);
    around
}

/// Whether all coordinates of a point are numbers.
pub open spec fn is_number(p: Point3) -> bool {
    p.x.ordered() && p.y.ordered() && p.z.ordered()
}

/// Whether all corners of some meshes are made of numbers.
pub open spec fn has_numbers(geoms: Seq<Geometry>) -> bool {
    forall|i: int| 0 <= i < vertices_of(geoms).len() ==> is_number(#[trigger] vertices_of(geoms)[i])
}

/// A tree that an arithmetic built was built by its rules.
pub proof fn lemma_built_plan<M: Arith>(inner: BvhInner, geoms: Seq<Geometry>, math: M, rules: ArithRules) -> (plan: BuildPlan)
    requires
        is_built(inner, geoms, math),
        rules.describe(math),
        is_buildable(geoms),
    ensures
        plan.lays_out(inner, geoms),
        triangles_of(geoms).len() > 0 ==> is_tree_over(inner, geoms, plan, rules),
{
    law_arithmetic_settles_all(rules, math);
    choose|plan: BuildPlan| {
        &&& #[trigger] plan.lays_out(inner, geoms)
        &&& forall|r: BuildRules| #[trigger] r.describe(math) ==> plan.follows(r, inner, geoms)
    }
}

/// In a tree that was built, the box of a child holds the corners of every
/// triangle under the child, as long as the margin around boxes loses nothing.
/// Corners that are not numbers lie nowhere.
pub proof fn law_boxes_hold_triangles<M: Arith>(
    inner: BvhInner,
    geoms: Seq<Geometry>,
    math: M,
    rules: ArithRules,
    n: int,
    slot: int,
    c: int,
    l: int,
    k: int,
)
    requires
        is_built(inner, geoms, math),
        rules.describe(math),
        is_buildable(geoms),
        rules.keeps_margin(),
        0 <= n < inner.nodes@.len(),
        0 <= slot < WIDTH,
        inner.is_under_child(n, slot, c),
        0 <= l < WIDTH,
        0 <= k < 3,
        0 <= c < inner.soa_chunks@.len(),
        inner.tri_slots@[WIDTH * c + l].geom_id < geoms.len(),
        ({
            let s = inner.tri_slots@[WIDTH * c + l];
            let p = corner_of(geoms, s.geom_id as int, s.orig_idx as int, k);
            p.x.ordered() && p.y.ordered() && p.z.ordered()
        }),
    ensures
        ({
            let s = inner.tri_slots@[WIDTH * c + l];
            inner.nodes@[n].child_box(slot).contains(corner_of(geoms, s.geom_id as int, s.orig_idx as int, k))
        }),
{
    let plan = lemma_built_plan(inner, geoms, math, rules);
    let total = triangles_of(geoms).len() as int;
    let s = inner.tri_slots@[WIDTH * c + l];
    let p = corner_of(geoms, s.geom_id as int, s.orig_idx as int, k);
    let (run, at) = lemma_child_box(inner, geoms, plan, rules, n, slot, c);
    let o = lemma_placed_triangle(inner, geoms, plan, rules, c, l);
    lemma_chunk_box_holds(vertices_of(geoms), plan.list, total, o, WIDTH as nat, l, p);
    assert(plan.chunks.boxes[o] == rules.grown_box(chunk_box(vertices_of(geoms), plan.list, total, o, WIDTH as nat)));
    lemma_box_around_holds(run, plan.chunks.boxes, at, p);
}

} // verus!
