//! Building of trees: triangles are clustered, packed into chunks of eight, put
//! under a binary tree, and that is collapsed into the eight-wide one.
use vstd::prelude::*;
use crate::aabb::{empty_box, AABB};
use crate::accel::bvh::BvhInner;
use crate::accel::cluster::{centroids_of, cluster_triangles, is_clustered};
use crate::accel::collapse::{collapse_to_bvh8, is_collapsed, is_linked, wide_nodes};
use crate::accel::geometry::{gather, has_corners, is_buildable, triangles_of, vertices_of, BuildTri, Geometry};
use crate::accel::math::{edge, grow, BuildRules};
use crate::accel::node::{Bvh8Node, FlatTriangles, TriSlot, MAX_CHUNKS, WIDTH};
use crate::accel::split::{ChunkOrder, ChunkView};
use crate::accel::tree::{has_short_leaves, size, subdivide_sah, tree_of, update_node_bounds, weight, BvhNode, TreeView};
use crate::arith::Arith;
use crate::order::rearranged;
use crate::scalar::Point3;

verus! {

/// What fills the last chunk: a triangle that is one point and belongs to no mesh.
pub open spec fn padding() -> BuildTri {
    BuildTri { v0: 0, v1: 0, v2: 0, orig_idx: u32::MAX, geom_id: u32::MAX }
}

/// Number of chunks for a number of triangles.
pub open spec fn chunks_for(n: int) -> int {
    (n + WIDTH - 1) / WIDTH as int
}

/// Whether a list is `n` triangles and then padding up to full chunks.
pub open spec fn is_padded(list: Seq<BuildTri>, n: int) -> bool {
    &&& 0 <= n <= list.len()
    &&& list.len() == WIDTH * chunks_for(n)
    &&& forall|i: int| n <= i < list.len() ==> #[trigger] list[i] == padding()
}

/// Fills up the last chunk.
fn pad_triangles(tris: &mut Vec<BuildTri>)
    requires
        old(tris).len() + WIDTH <= usize::MAX,
    ensures
        is_padded(final(tris)@, old(tris).len() as int),
        final(tris)@.take(old(tris).len() as int) == old(tris)@,
{
    let n: usize = tris.len();
    while tris.len() % WIDTH != 0
        invariant
            n == old(tris).len(),
            n <= tris.len() <= WIDTH * chunks_for(n as int),
            n + WIDTH <= usize::MAX,
            tris@.take(n as int) == old(tris)@,
            forall|i: int| n <= i < tris.len() ==> #[trigger] tris[i] == padding(),
        decreases WIDTH * chunks_for(n as int) - tris.len(),
    {
        tris.push(BuildTri { v0: 0, v1: 0, v2: 0, orig_idx: u32::MAX, geom_id: u32::MAX });
        assert(tris@.take(n as int) =~= old(tris)@);
    }
}

/// The box around the first lanes of a chunk of a list, of which `n` triangles
/// are not padding.
pub open spec fn chunk_box(vertices: Seq<Point3>, list: Seq<BuildTri>, n: int, c: int, lanes: nat) -> AABB
    decreases lanes,
{
    if lanes == 0 {
        empty_box()
    } else {
        let b = chunk_box(vertices, list, n, c, (lanes - 1) as nat);
        let k = WIDTH * c + lanes - 1;
        if k < n {
            b.with_point(vertices[list[k].v0 as int]).with_point(vertices[list[k].v1 as int]).with_point(
                vertices[list[k].v2 as int],
            )
        } else {
            b
        }
    }
}

/// Whether a lane holds a triangle's edges.
pub open spec fn has_edges(
    rules: BuildRules,
    vertices: Seq<Point3>,
    soa: FlatTriangles,
    lane: int,
    t: BuildTri,
) -> bool {
    let v0 = vertices[t.v0 as int];
    &&& soa.edge1(lane) == (rules.edge)(v0, vertices[t.v1 as int])
    &&& soa.edge2(lane) == (rules.edge)(v0, vertices[t.v2 as int])
}

/// Packs a chunk of a list and finds the box around it.
fn make_chunk<M: Arith>(math: &M, vertices: &Vec<Point3>, list: &Vec<BuildTri>, n: usize, c: usize) -> (r: (
    FlatTriangles,
    AABB,
))
    requires
        forall|i: int| 0 <= i < list.len() ==> has_corners(#[trigger] list[i], vertices@.len()),
        WIDTH * (c + 1) <= list.len(),
    ensures
        r.1 == chunk_box(vertices@, list@, n as int, c as int, WIDTH as nat),
        forall|l: int|
            0 <= l < WIDTH ==> #[trigger] r.0.corner(l) == vertices[list[WIDTH * c + l].v0 as int],
        forall|rules: BuildRules, l: int|
            #![trigger rules.describe(*math), r.0.edge1(l)]
            rules.describe(*math) && 0 <= l < WIDTH ==> has_edges(
                rules,
                vertices@,
                r.0,
                l,
                list[WIDTH * c + l],
            ),
{
    let mut soa = FlatTriangles::default();
    let mut aabb = AABB::invalid();
    let mut i: usize = 0;
    while i < WIDTH
        invariant
            i <= WIDTH,
            forall|i: int| 0 <= i < list.len() ==> has_corners(#[trigger] list[i], vertices@.len()),
            WIDTH * (c + 1) <= list.len(),
            aabb == chunk_box(vertices@, list@, n as int, c as int, i as nat),
            forall|l: int|
                0 <= l < i ==> #[trigger] soa.corner(l) == vertices[list[WIDTH * c + l].v0 as int],
            forall|rules: BuildRules, l: int|
                #![trigger rules.describe(*math), soa.edge1(l)]
                rules.describe(*math) && 0 <= l < i ==> has_edges(
                    rules,
                    vertices@,
                    soa,
                    l,
                    list[WIDTH * c + l],
                ),
        decreases WIDTH - i,
    {
        let ghost before = soa;
        let tri = list[WIDTH * c + i];
        let v0 = vertices[tri.v0 as usize];
        let v1 = vertices[tri.v1 as usize];
        let v2 = vertices[tri.v2 as usize];
        let e1 = edge(math, v0, v1);
        let e2 = edge(math, v0, v2);
        soa.set_lane(i, v0, e1, e2);
        if WIDTH * c + i < n {
            aabb.extend(v0);
            aabb.extend(v1);
            aabb.extend(v2);
        }
        proof {
            assert forall|rules: BuildRules, l: int|
                #![trigger rules.describe(*math), soa.edge1(l)]
                rules.describe(*math) && 0 <= l < i + 1 implies has_edges(
                rules,
                vertices@,
                soa,
                l,
                list[WIDTH * c + l],
            ) by {
                if l < i {
                    assert(before.edge1(l) == soa.edge1(l));
                }
            }
        }
        i = i + 1;
    }
    (soa, aabb)
}

/// The chunks of a list: their triangles, boxes and middles.
pub struct ChunkData {
    pub soa: Vec<FlatTriangles>,
    pub aabbs: Vec<AABB>,
    pub centroids: Vec<Point3>,
}

/// Packs a list of triangles into chunks.
fn make_chunks<M: Arith>(math: &M, vertices: &Vec<Point3>, list: &Vec<BuildTri>, n: usize) -> (r: ChunkData)
    requires
        forall|i: int| 0 <= i < list.len() ==> has_corners(#[trigger] list[i], vertices@.len()),
        is_padded(list@, n as int),
    ensures
        r.soa.len() == chunks_for(n as int),
        r.aabbs.len() == chunks_for(n as int),
        r.centroids.len() == chunks_for(n as int),
        forall|c: int, l: int|
            #![trigger r.soa[c].corner(l)]
            0 <= c < r.soa.len() && 0 <= l < WIDTH ==> r.soa[c].corner(l) == vertices[list[WIDTH * c
                + l].v0 as int],
        forall|rules: BuildRules, c: int, l: int|
            #![trigger rules.describe(*math), r.soa[c].edge1(l)]
            rules.describe(*math) && 0 <= c < r.soa.len() && 0 <= l < WIDTH ==> has_edges(
                rules,
                vertices@,
                r.soa[c],
                l,
                list[WIDTH * c + l],
            ),
        forall|rules: BuildRules, c: int|
            #![trigger rules.describe(*math), r.aabbs[c]]
            rules.describe(*math) && 0 <= c < r.soa.len() ==> r.aabbs[c] == (rules.grow)(
                chunk_box(vertices@, list@, n as int, c, WIDTH as nat),
            ),
        forall|rules: BuildRules, c: int|
            #![trigger rules.describe(*math), r.centroids[c]]
            rules.describe(*math) && 0 <= c < r.soa.len() ==> r.centroids[c] == (rules.center)(r.aabbs[c]),
{
    let count: usize = list.len() / WIDTH;
    let mut r = ChunkData { soa: Vec::new(), aabbs: Vec::new(), centroids: Vec::new() };
    let mut i: usize = 0;
    while i < count
        invariant
            i <= count,
            WIDTH * count == list.len(),
            forall|i: int| 0 <= i < list.len() ==> has_corners(#[trigger] list[i], vertices@.len()),
            r.soa.len() == i,
            r.aabbs.len() == i,
            r.centroids.len() == i,
            forall|c: int, l: int|
                #![trigger r.soa[c].corner(l)]
                0 <= c < i && 0 <= l < WIDTH ==> r.soa[c].corner(l) == vertices[list[WIDTH * c + l].v0 as int],
            forall|rules: BuildRules, c: int, l: int|
                #![trigger rules.describe(*math), r.soa[c].edge1(l)]
                rules.describe(*math) && 0 <= c < i && 0 <= l < WIDTH ==> has_edges(
                    rules,
                    vertices@,
                    r.soa[c],
                    l,
                    list[WIDTH * c + l],
                ),
            forall|rules: BuildRules, c: int|
                #![trigger rules.describe(*math), r.aabbs[c]]
                rules.describe(*math) && 0 <= c < i ==> r.aabbs[c] == (rules.grow)(
                    chunk_box(vertices@, list@, n as int, c, WIDTH as nat),
                ),
            forall|rules: BuildRules, c: int|
                #![trigger rules.describe(*math), r.centroids[c]]
                rules.describe(*math) && 0 <= c < i ==> r.centroids[c] == (rules.center)(r.aabbs[c]),
        decreases count - i,
    {
        let (soa, tight) = make_chunk(math, vertices, list, n, i);
        let aabb = grow(math, tight);
        let mid = aabb.center(math);
        r.soa.push(soa);
        r.aabbs.push(aabb);
        r.centroids.push(mid);
        i = i + 1;
    }
    r
}

/// The numbers below `n`, in order.
pub open spec fn range(n: int) -> Seq<usize> {
    Seq::new(n as nat, |i: int| i as usize)
}

/// Puts chunks under a binary tree.
fn make_tree<M: Arith>(math: &M, aabbs: Vec<AABB>, centroids: Vec<Point3>) -> (r: (Vec<BvhNode>, ChunkOrder))
    requires
        0 < aabbs.len() <= MAX_CHUNKS,
        aabbs.len() == centroids.len(),
    ensures
        r.1.valid(),
        r.1.chunks() == (ChunkView { boxes: aabbs@, mids: centroids@ }),
        r.1.indices.len() == aabbs.len(),
        rearranged(range(aabbs.len() as int), r.1.indices@, 0, aabbs.len() as int),
        tree_of(r.0@, r.1).is_tree(0, 1, 0),
        weight(r.0@, 0) == aabbs.len(),
        r.0.len() < 2 * aabbs.len(),
        has_short_leaves(r.0@),
        forall|rules: BuildRules| #[trigger] rules.describe(*math) ==> tree_of(r.0@, r.1).is_split_by(rules, 0, 0),
{
    let n: usize = aabbs.len();
    let mut indices: Vec<usize> = Vec::new();
    let mut i: usize = 0;
    while i < n
        invariant
            i <= n,
            indices@ == range(i as int),
        decreases n - i,
    {
        indices.push(i);
        i = i + 1;
        assert(indices@ =~= range(i as int));
    }
    let mut order = ChunkOrder { indices, aabbs, centroids };
    let mut nodes: Vec<BvhNode> = Vec::new();
    nodes.push(BvhNode { aabb: AABB::invalid(), left_first: 0, chunk_count: n as u32 });
    update_node_bounds(0, &mut nodes, &order);
    assert(tree_of(nodes@, order).items(0, 0) =~= order.run(0, n as int));
    subdivide_sah(math, 0, &mut nodes, &mut order);
    (nodes, order)
}

/// A sound tree ends in leaves that hold chunks of its order.
proof fn lemma_tree_linked(t: TreeView, i: int, from: int, first: int)
    requires
        t.is_tree(i, from, first),
    ensures
        is_linked(t.nodes, t.order.len() as int, i),
    decreases t.nodes.len() - i,
{
    if !t.nodes[i].is_leaf() {
        lemma_tree_linked(t, from, from + 2, first);
        lemma_tree_linked(t, from + 1, from + 2 + size(t.nodes, from), first + weight(t.nodes, from));
    }
}

/// What a triangle was in the scene.
pub open spec fn slot_of(t: BuildTri) -> TriSlot {
    TriSlot { orig_idx: t.orig_idx, geom_id: t.geom_id }
}

/// Whether the triangle of a slot accepts hits from behind.
pub open spec fn accepts_back_faces(geoms: Seq<Geometry>, slot: TriSlot) -> bool {
    slot.geom_id < geoms.len() && geoms[slot.geom_id as int].is_double_sided(slot.orig_idx as int)
}

/// Whether the bit of a lane is set.
pub open spec fn has_bit(mask: u8, lane: int) -> bool {
    mask & (1u8 << (lane as u8)) != 0
}

proof fn lemma_set_bit(mask: u8, i: u8, j: u8)
    requires
        i < 8,
        j < 8,
    ensures
        has_bit(mask | (1u8 << i), j as int) <==> i == j || has_bit(mask, j as int),
        !has_bit(0, j as int),
{
    assert((mask | (1u8 << i)) & (1u8 << j) != 0 <==> i == j || mask & (1u8 << j) != 0) by (bit_vector)
        requires
            i < 8,
            j < 8,
    ;
    assert(0u8 & (1u8 << j) == 0) by (bit_vector);
}

/// Chunks in the order of a tree, with what their triangles were.
struct Arranged {
    soa: Vec<FlatTriangles>,
    slots: Vec<TriSlot>,
    masks: Vec<u8>,
}

/// The triangle of a list that a tree's order puts into a slot.
pub open spec fn placed(list: Seq<BuildTri>, order: Seq<usize>, k: int) -> BuildTri {
    list[WIDTH * order[k / WIDTH as int] + k % WIDTH as int]
}

/// Puts chunks into the order of a tree.
fn arrange(geoms: &Vec<Geometry>, order: &Vec<usize>, soa: &Vec<FlatTriangles>, list: &Vec<BuildTri>) -> (r: Arranged)
    requires
        list.len() == WIDTH * soa.len(),
        forall|p: int| 0 <= p < order.len() ==> #[trigger] order[p] < soa.len(),
        WIDTH * order.len() <= usize::MAX,
    ensures
        r.soa.len() == order.len(),
        r.masks.len() == order.len(),
        r.slots.len() == WIDTH * order.len(),
        forall|p: int| 0 <= p < order.len() ==> #[trigger] r.soa[p] == soa[order[p] as int],
        forall|k: int| 0 <= k < r.slots.len() ==> #[trigger] r.slots[k] == slot_of(placed(list@, order@, k)),
        forall|p: int, l: int|
            #![trigger has_bit(r.masks[p], l)]
            0 <= p < order.len() && 0 <= l < WIDTH ==> (has_bit(r.masks[p], l) <==> accepts_back_faces(
                geoms@,
                r.slots[WIDTH * p + l],
            )),
{
    let mut r = Arranged { soa: Vec::new(), slots: Vec::new(), masks: Vec::new() };
    let mut p: usize = 0;
    while p < order.len()
        invariant
            p <= order.len(),
            list.len() == WIDTH * soa.len(),
            forall|p: int| 0 <= p < order.len() ==> #[trigger] order[p] < soa.len(),
            WIDTH * order.len() <= usize::MAX,
            r.soa.len() == p,
            r.masks.len() == p,
            r.slots.len() == WIDTH * p,
            forall|q: int| 0 <= q < p ==> #[trigger] r.soa[q] == soa[order[q] as int],
            forall|k: int| 0 <= k < r.slots.len() ==> #[trigger] r.slots[k] == slot_of(placed(list@, order@, k)),
            forall|q: int, l: int|
                #![trigger has_bit(r.masks[q], l)]
                0 <= q < p && 0 <= l < WIDTH ==> (has_bit(r.masks[q], l) <==> accepts_back_faces(
                    geoms@,
                    r.slots[WIDTH * q + l],
                )),
        decreases order.len() - p,
    {
        let c: usize = order[p];
        let ghost slots0 = r.slots@;
        let ghost masks0 = r.masks@;
        r.soa.push(soa[c]);
        let mut mask: u8 = 0;
        let mut i: usize = 0;
        proof {
            assert forall|l: int| 0 <= l < WIDTH implies !#[trigger] has_bit(mask, l) by {
                lemma_set_bit(0, 0, l as u8);
            }
        }
        while i < WIDTH
            invariant
                i <= WIDTH,
                p < order.len(),
                c == order[p as int],
                c < soa.len(),
                list.len() == WIDTH * soa.len(),
                WIDTH * order.len() <= usize::MAX,
                slots0.len() == WIDTH * p,
                r.slots.len() == WIDTH * p + i,
                r.masks@ == masks0,
                r.soa.len() == p + 1,
                forall|q: int| 0 <= q < p + 1 ==> #[trigger] r.soa[q] == soa[order[q] as int],
                forall|k: int| 0 <= k < slots0.len() ==> #[trigger] r.slots[k] == slots0[k],
                forall|k: int|
                    0 <= k < r.slots.len() ==> #[trigger] r.slots[k] == slot_of(placed(list@, order@, k)),
                forall|l: int|
                    0 <= l < i ==> (#[trigger] has_bit(mask, l) <==> accepts_back_faces(
                        geoms@,
                        r.slots[WIDTH * p + l],
                    )),
                forall|l: int| i <= l < WIDTH ==> !#[trigger] has_bit(mask, l),
            decreases WIDTH - i,
        {
            let t = list[c * WIDTH + i];
            let slot = TriSlot { orig_idx: t.orig_idx, geom_id: t.geom_id };
            r.slots.push(slot);
            let ghost mask0 = mask;
            let g: usize = slot.geom_id as usize;
            let j: usize = slot.orig_idx as usize;
            if g < geoms.len() && j < geoms[g].double_sided.len() && geoms[g].double_sided[j] {
                mask = mask | (1u8 << (i as u8));
                proof {
                    assert forall|l: int| 0 <= l < WIDTH implies (#[trigger] has_bit(mask, l) <==> l == i
                        || has_bit(mask0, l)) by {
                        lemma_set_bit(mask0, i as u8, l as u8);
                    }
                }
            }
            proof {
                let k = WIDTH * p + i;
                assert(k / WIDTH as int == p && k % WIDTH as int == i);
                assert(r.slots[k] == slot);
            }
            i = i + 1;
        }
        r.masks.push(mask);
        proof {
            assert forall|q: int, l: int|
                #![trigger has_bit(r.masks[q], l)]
                0 <= q < p + 1 && 0 <= l < WIDTH implies (has_bit(r.masks[q], l) <==> accepts_back_faces(
                geoms@,
                r.slots[WIDTH * q + l],
            )) by {
                if q < p {
                    assert(has_bit(masks0[q], l) == has_bit(r.masks[q], l));
                    assert(r.slots[WIDTH * q + l] == slots0[WIDTH * q + l]);
                }
            }
        }
        p = p + 1;
    }
    r
}

/// How a tree came about: the clustered and padded list of triangles, the boxes
/// and middles of its chunks, the binary tree over them, and its order.
pub struct BuildPlan {
    pub list: Seq<BuildTri>,
    pub chunks: ChunkView,
    pub nodes: Seq<BvhNode>,
    pub order: Seq<usize>,
}

impl BuildPlan {
    /// The binary tree.
    pub open spec fn tree(self) -> TreeView {
        TreeView { nodes: self.nodes, order: self.order, chunks: self.chunks }
    }

    /// Whether a tree holds the triangles of some meshes as this plan says: the
    /// list is all triangles, each once, and padding; the order is all chunks,
    /// each once; no leaf is too long for a reference; and each chunk of the tree
    /// is that of the list which the order names, lane by lane.
    pub open spec fn lays_out(self, inner: BvhInner, geoms: Seq<Geometry>) -> bool {
        let n = triangles_of(geoms).len() as int;
        let m = chunks_for(n);
        &&& is_padded(self.list, n)
        &&& self.list.take(n).to_multiset() == triangles_of(geoms).to_multiset()
        &&& self.order.len() == m
        &&& self.order.to_multiset() == range(m).to_multiset()
        &&& n > 0 ==> self.tree().is_tree(0, 1, 0) && weight(self.nodes, 0) == m
        &&& self.nodes.len() <= u32::MAX
        &&& has_short_leaves(self.nodes)
        &&& inner.soa_chunks.len() == m
        &&& inner.tri_slots.len() == WIDTH * m
        &&& inner.double_sided_masks.len() == m
        &&& n == 0 ==> inner.nodes.len() == 0
        &&& forall|k: int|
            0 <= k < inner.tri_slots.len() ==> #[trigger] inner.tri_slots[k] == slot_of(
                placed(self.list, self.order, k),
            )
        &&& forall|p: int, l: int|
            #![trigger inner.soa_chunks[p].corner(l)]
            0 <= p < m && 0 <= l < WIDTH ==> inner.soa_chunks[p].corner(l) == vertices_of(geoms)[placed(
                self.list,
                self.order,
                WIDTH * p + l,
            ).v0 as int]
        &&& forall|p: int, l: int|
            #![trigger has_bit(inner.double_sided_masks[p], l)]
            0 <= p < m && 0 <= l < WIDTH ==> (has_bit(inner.double_sided_masks[p], l) <==> accepts_back_faces(
                geoms,
                inner.tri_slots[WIDTH * p + l],
            ))
    }

    /// Whether this plan, and the tree made by it, are what the rules lead to.
    pub open spec fn follows(self, rules: BuildRules, inner: BvhInner, geoms: Seq<Geometry>) -> bool {
        let n = triangles_of(geoms).len() as int;
        let m = chunks_for(n);
        let vertices = vertices_of(geoms);
        &&& is_clustered(rules, centroids_of(rules, vertices, self.list.take(n)))
        &&& forall|c: int|
            0 <= c < m ==> #[trigger] self.chunks.boxes[c] == (rules.grow)(
                chunk_box(vertices, self.list, n, c, WIDTH as nat),
            )
        &&& forall|c: int|
            0 <= c < m ==> #[trigger] self.chunks.mids[c] == (rules.center)(self.chunks.boxes[c])
        &&& forall|p: int, l: int|
            #![trigger inner.soa_chunks[p].edge1(l)]
            0 <= p < m && 0 <= l < WIDTH ==> has_edges(
                rules,
                vertices,
                inner.soa_chunks[p],
                l,
                placed(self.list, self.order, WIDTH * p + l),
            )
        &&& n > 0 ==> {
            &&& self.tree().is_split_by(rules, 0, 0)
            &&& is_collapsed(rules, self.nodes, 0, inner.nodes@, 0)
            &&& inner.nodes.len() == wide_nodes(rules, self.nodes, 0, WIDTH as nat)
        }
    }
}

/// Whether a tree is what an arithmetic builds over some meshes.
pub open spec fn is_built<M: Arith>(inner: BvhInner, geoms: Seq<Geometry>, math: M) -> bool {
    &&& inner.valid()
    &&& exists|plan: BuildPlan| {
        &&& #[trigger] plan.lays_out(inner, geoms)
        &&& forall|rules: BuildRules| #[trigger] rules.describe(math) ==> plan.follows(rules, inner, geoms)
    }
}

/// Builds the tree over the triangles of some meshes.
pub fn build<M: Arith>(math: &M, geometries: &Vec<Geometry>) -> (r: BvhInner)
    requires
        is_buildable(geometries@),
    ensures
        is_built(r, geometries@, *math),
{
    let (vertices, mut tris) = gather(geometries);
    let n: usize = tris.len();
    cluster_triangles(math, &vertices, &mut tris);
    let ghost clustered = tris@;
    pad_triangles(&mut tris);
    proof {
        assert forall|i: int| 0 <= i < tris.len() implies has_corners(#[trigger] tris[i], vertices@.len()) by {
            if i < n {
                assert(tris@.take(n as int)[i] == clustered[i]);
            } else {
                assert(has_corners(clustered[0], vertices@.len()));
            }
        }
    }
    let data = make_chunks(math, &vertices, &tris, n);
    let soa = data.soa;
    let m: usize = soa.len();
    assert(chunks_for(n as int) <= MAX_CHUNKS);
    if m == 0 {
        let r = BvhInner {
            nodes: Vec::new(),
            tri_slots: Vec::new(),
            soa_chunks: Vec::new(),
            double_sided_masks: Vec::new(),
        };
        proof {
            let plan = BuildPlan {
                list: tris@,
                chunks: ChunkView { boxes: data.aabbs@, mids: data.centroids@ },
                nodes: Seq::empty(),
                order: Seq::empty(),
            };
            assert(range(0) =~= Seq::<usize>::empty());
            assert(plan.lays_out(r, geometries@));
        }
        return r;
    }
    let ghost boxes = data.aabbs@;
    let ghost mids = data.centroids@;
    let (nodes, order) = make_tree(math, data.aabbs, data.centroids);
    proof {
        assert(range(m as int).subrange(0, m as int) =~= range(m as int));
        assert(order.indices@.subrange(0, m as int) =~= order.indices@);
        lemma_tree_linked(tree_of(nodes@, order), 0, 1, 0);
    }
    let arranged = arrange(geometries, &order.indices, &soa, &tris);
    let mut wide: Vec<Bvh8Node> = Vec::new();
    let root: u32 = collapse_to_bvh8(math, 0, &nodes, Ghost(m as int), &mut wide);
    let r = BvhInner {
        nodes: wide,
        tri_slots: arranged.slots,
        soa_chunks: arranged.soa,
        double_sided_masks: arranged.masks,
    };
    proof {
        let plan = BuildPlan {
            list: tris@,
            chunks: ChunkView { boxes, mids },
            nodes: nodes@,
            order: order.indices@,
        };
        assert forall|p: int, l: int|
            #![trigger r.soa_chunks[p].corner(l)]
            0 <= p < m && 0 <= l < WIDTH implies r.soa_chunks[p].corner(l) == vertices@[placed(
            plan.list,
            plan.order,
            WIDTH * p + l,
        ).v0 as int] by {
            let k = WIDTH * p + l;
            assert(k / WIDTH as int == p && k % WIDTH as int == l);
            assert(r.soa_chunks[p] == soa[order.indices[p] as int]);
        }
        assert(plan.lays_out(r, geometries@));
        assert forall|rules: BuildRules| #[trigger] rules.describe(*math) implies plan.follows(
            rules,
            r,
            geometries@,
        ) by {
            assert forall|p: int, l: int|
                #![trigger r.soa_chunks[p].edge1(l)]
                0 <= p < m && 0 <= l < WIDTH implies has_edges(
                rules,
                vertices@,
                r.soa_chunks[p],
                l,
                placed(plan.list, plan.order, WIDTH * p + l),
            ) by {
                let k = WIDTH * p + l;
                assert(k / WIDTH as int == p && k % WIDTH as int == l);
                assert(r.soa_chunks[p] == soa[order.indices[p] as int]);
                let c = order.indices[p] as int;
                assert(soa[c].edge1(l) == r.soa_chunks[p].edge1(l));
            }
        }
    }
    r
}

} // verus!
