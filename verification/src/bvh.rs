//! The tree over a scene, with what shading needs to know of its triangles.
use vstd::prelude::*;
use crate::aabb::{empty_box, AABB};
use crate::accel::builder::is_built;
use crate::accel::bvh::{Hit, Ray, RayRules, TriangleHit};
use crate::accel::geometry::{is_buildable, triangles_of, vertices_of, Geometry, MAX_TRIANGLES};
use crate::arith::Arith;
use crate::accel::scene::{RayAccelerator, Scene};
use crate::scalar::Point3;
use crate::scene::{Color, Vec2, Vec4};

verus! {

/// Per-triangle metadata: material, light, and vertex indices into `Bvh.vertices`.
#[derive(Clone, Copy, PartialEq, Eq, Structural, Debug)]
pub struct TriangleMeta {
    pub material: u32,
    /// Unified light index if this triangle is an area-light emitter, else `u32::MAX`.
    pub light: u32,
    pub v0: u32,
    pub v1: u32,
    pub v2: u32,
    /// True when this triangle accepts backface hits (glass with transmission > 0).
    pub double_sided: bool,
}

/// A hit, with what shading needs to know of the triangle.
#[derive(Clone, Copy, PartialEq, Eq, Structural, Debug)]
pub struct BvhHit {
    pub hit: TriangleHit,
    pub material: u32,
    pub v0: u32,
    pub v1: u32,
    pub v2: u32,
    /// Approximate chunk index (`prim_id / 8`).
    pub chunk_idx: u32,
    /// Unified light index if the hit triangle is an emitter, else `u32::MAX`.
    pub light: u32,
}

/// A flattened scene and the tree over it.
pub struct Bvh {
    pub accel: Scene,
    pub vertices: Vec<Point3>,
    pub normals: Vec<Point3>,
    pub uvs: Vec<Vec2>,
    pub colors: Vec<Color>,
    /// Per-vertex tangents (xyz = world-space direction, w = bitangent sign).
    /// All zero where the mesh had none.
    pub tangents: Vec<Vec4>,
    pub triangle_meta: Vec<TriangleMeta>,
    /// The least corner of the box around all vertices.
    pub bounds_min: Point3,
    /// The greatest corner of the box around all vertices.
    pub bounds_max: Point3,
}

/// The least box around some points.
pub open spec fn box_around_points(points: Seq<Point3>) -> AABB
    decreases points.len(),
{
    if points.len() == 0 {
        empty_box()
    } else {
        box_around_points(points.drop_last()).with_point(points.last())
    }
}

/// A hit on a triangle of a mesh, with the triangle's metadata; none if the
/// triangle has no metadata.
pub open spec fn described_hit(meta: Seq<TriangleMeta>, hit: Hit) -> Option<BvhHit> {
    if hit.prim_id < meta.len() {
        let m = meta[hit.prim_id as int];
        Some(
            BvhHit {
                hit: TriangleHit { t: hit.t, u: hit.u, v: hit.v },
                material: m.material,
                v0: m.v0,
                v1: m.v1,
                v2: m.v2,
                chunk_idx: hit.prim_id / 8,
                light: m.light,
            },
        )
    } else {
        None
    }
}

/// Whether a hit carries the metadata of some triangle.
pub open spec fn is_described(meta: Seq<TriangleMeta>, hit: BvhHit) -> bool {
    exists|i: int|
        0 <= i < meta.len() && hit.material == (#[trigger] meta[i]).material && hit.light == meta[i].light && hit.v0
            == meta[i].v0 && hit.v1 == meta[i].v1 && hit.v2 == meta[i].v2
}

impl Bvh {
    /// The nearest hit of a ray, with the metadata of the triangle.
    pub fn intersect<M: Arith>(&self, math: &M, ray: &Ray) -> (r: Option<BvhHit>)
        ensures
            self.accel.tree() is None ==> r is None,
            r matches Some(hit) ==> is_described(self.triangle_meta@, hit),
            forall|rules: RayRules| #[trigger]
                rules.describe(*math) ==> (self.accel.tree() matches Some(inner) ==> r == (match inner.nearest(
                    rules,
                    (rules.internal)(*ray),
                ) {
                    Some(hit) => described_hit(self.triangle_meta@, hit),
                    None => None,
                })),
    {
        match self.accel.closest_hit(math, ray) {
            Some(hit) => {
                let i: usize = hit.prim_id as usize;
                if i < self.triangle_meta.len() {
                    let m = self.triangle_meta[i];
                    assert(self.triangle_meta@[i as int] == m);
                    Some(
                        BvhHit {
                            hit: TriangleHit { t: hit.t, u: hit.u, v: hit.v },
                            material: m.material,
                            v0: m.v0,
                            v1: m.v1,
                            v2: m.v2,
                            chunk_idx: hit.prim_id / 8,
                            light: m.light,
                        },
                    )
                } else {
                    None
                }
            },
            None => None,
        }
    }

    /// Whether something lies on a ray.
    pub fn is_occluded<M: Arith>(&self, math: &M, ray: &Ray) -> (r: bool)
        ensures
            self.accel.tree() is None ==> !r,
            forall|rules: RayRules| #[trigger]
                rules.describe(*math) ==> (self.accel.tree() matches Some(inner) ==> r == inner.is_hit(
                    rules,
                    (rules.internal)(*ray),
                )),
    {
        self.accel.any_hit(math, ray)
    }
}

/// The mesh of a flattened scene: its vertices and triangles, one for one.
pub open spec fn is_mesh_of(geom: Geometry, vertices: Seq<Point3>, meta: Seq<TriangleMeta>) -> bool {
    &&& geom.verts@ == vertices
    &&& geom.tris@.len() == meta.len()
    &&& geom.double_sided@.len() == meta.len()
    &&& forall|i: int|
        0 <= i < meta.len() ==> {
            let t = #[trigger] geom.tris@[i];
            t[0] == meta[i].v0 && t[1] == meta[i].v1 && t[2] == meta[i].v2
        }
    &&& forall|i: int| 0 <= i < meta.len() ==> #[trigger] geom.double_sided@[i] == meta[i].double_sided
}

/// Whether the vertices of all triangles are there.
pub open spec fn have_vertices(meta: Seq<TriangleMeta>, n: nat) -> bool {
    forall|i: int|
        0 <= i < meta.len() ==> (#[trigger] meta[i]).v0 < n && meta[i].v1 < n && meta[i].v2 < n
}

/// The mesh of a flattened scene.
fn make_mesh(vertices: &Vec<Point3>, meta: &Vec<TriangleMeta>) -> (r: Geometry)
    ensures
        is_mesh_of(r, vertices@, meta@),
{
    let mut tris: Vec<[u32; 3]> = Vec::new();
    let mut ds: Vec<bool> = Vec::new();
    let mut i: usize = 0;
    while i < meta.len()
        invariant
            i <= meta.len(),
            tris.len() == i,
            ds.len() == i,
            forall|j: int|
                0 <= j < i ==> {
                    let t = #[trigger] tris@[j];
                    t[0] == meta[j].v0 && t[1] == meta[j].v1 && t[2] == meta[j].v2
                },
            forall|j: int| 0 <= j < i ==> #[trigger] ds@[j] == meta[j].double_sided,
        decreases meta.len() - i,
    {
        let m = meta[i];
        tris.push([m.v0, m.v1, m.v2]);
        ds.push(m.double_sided);
        i = i + 1;
    }
    Geometry::triangle_mesh(vertices, &tris).with_double_sided(ds)
}

/// The least box around some points.
fn bounds_of(points: &Vec<Point3>) -> (r: AABB)
    ensures
        r == box_around_points(points@),
{
    let mut b = AABB::invalid();
    let mut i: usize = 0;
    assert(points@.take(0) =~= Seq::<Point3>::empty());
    while i < points.len()
        invariant
            i <= points.len(),
            b == box_around_points(points@.take(i as int)),
        decreases points.len() - i,
    {
        assert(points@.take(i + 1).drop_last() =~= points@.take(i as int));
        b.extend(points[i]);
        i = i + 1;
    }
    assert(points@.take(i as int) =~= points@);
    b
}

/// Vertices and triangles of a flattened scene.
pub struct FlatScene {
    pub vertices: Vec<Point3>,
    pub normals: Vec<Point3>,
    pub uvs: Vec<Vec2>,
    pub colors: Vec<Color>,
    pub tangents: Vec<Vec4>,
    pub meta: Vec<TriangleMeta>,
}

/// Builds the tree over a flattened scene.
pub fn build_bvh<M: Arith>(math: &M, flat: FlatScene) -> (r: Bvh)
    requires
        have_vertices(flat.meta@, flat.vertices@.len()),
        flat.vertices@.len() < u32::MAX,
        flat.meta@.len() <= MAX_TRIANGLES,
    ensures
        r.vertices == flat.vertices,
        r.normals == flat.normals,
        r.uvs == flat.uvs,
        r.colors == flat.colors,
        r.tangents == flat.tangents,
        r.triangle_meta == flat.meta,
        (AABB { min: r.bounds_min, max: r.bounds_max }) == box_around_points(flat.vertices@),
        r.accel.geometries().len() == 1,
        is_mesh_of(r.accel.geometries()[0], flat.vertices@, flat.meta@),
        r.accel.tree() is Some,
        is_buildable(r.accel.geometries()),
        is_built(r.accel.tree()->0, r.accel.geometries(), *math),
{
    let geom = make_mesh(&flat.vertices, &flat.meta);
    let b = bounds_of(&flat.vertices);
    let mut accel = Scene::new();
    let _id: u32 = accel.attach_geometry(geom);
    proof {
        lemma_one_mesh_buildable(geom, flat.vertices@, flat.meta@);
        assert(accel.geometries() =~= seq![geom]);
    }
    accel.commit(math);
    Bvh {
        accel,
        vertices: flat.vertices,
        normals: flat.normals,
        uvs: flat.uvs,
        colors: flat.colors,
        tangents: flat.tangents,
        triangle_meta: flat.meta,
        bounds_min: b.min,
        bounds_max: b.max,
    }
}

proof fn lemma_one_mesh_buildable(geom: Geometry, vertices: Seq<Point3>, meta: Seq<TriangleMeta>)
    requires
        is_mesh_of(geom, vertices, meta),
        have_vertices(meta, vertices.len()),
        vertices.len() < u32::MAX,
        meta.len() <= MAX_TRIANGLES,
    ensures
        is_buildable(seq![geom]),
{
    let geoms = seq![geom];
    reveal_with_fuel(vertices_of, 2);
    reveal_with_fuel(triangles_of, 2);
    assert(geoms.drop_last() =~= Seq::<Geometry>::empty());
    assert(vertices_of(geoms) =~= vertices);
    assert forall|g: int, j: int, k: int|
        #![trigger geoms[g].tris@[j][k]]
        0 <= g < geoms.len() && 0 <= j < geoms[g].tris@.len() && 0 <= k < 3 implies geoms[g].tris@[j][k]
        + vertices_of(geoms.take(g)).len() < vertices_of(geoms).len() by {
        assert(geoms.take(0) =~= Seq::<Geometry>::empty());
        let t = geom.tris@[j];
        assert(t[0] == meta[j].v0 && t[1] == meta[j].v1 && t[2] == meta[j].v2);
        assert(k == 0 || k == 1 || k == 2);
    }
}

} // verus!
