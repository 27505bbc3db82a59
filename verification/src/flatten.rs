//! Flattening of a scene: every mesh of every node, in world space, as one list
//! of vertices and one of triangles.
use std::collections::HashMap;
use vstd::prelude::*;
use crate::aabb::AABB;
use crate::accel::builder::is_built;
use crate::accel::geometry::{is_buildable, MAX_TRIANGLES};
use crate::bvh::{box_around_points, build_bvh, is_mesh_of, Bvh, FlatScene, TriangleMeta};
use crate::arith::{cross, dot, minus, norm, plus, shrunk, unit, Arith, ArithRules};
use crate::emitters::{EmitterTri, MeshEmitter, MeshEmitterView};
use crate::scalar::{Point3, Scalar, ONE_KEY};
use crate::scene::{white, Color, Mesh, Scene, Transform, Triangle, Vec2, Vec4};

verus! {

broadcast use vstd::std_specs::hash::group_hash_axioms;

/// The normal of a triangle before and after it is made unit length.
#[derive(Clone, Copy, PartialEq, Eq, Structural, Debug)]
pub struct FaceNormal {
    pub length: Scalar,
    pub unit: Point3,
}

impl ArithRules {
    /// The normal of a triangle.
    pub open spec fn face_normal(self, a: Point3, b: Point3, c: Point3) -> FaceNormal {
        let n = self.cross(self.minus(b, a), self.minus(c, a));
        let length = self.norm(n);
        FaceNormal { length, unit: self.shrunk(n, length) }
    }
}

/// The normal of a triangle.
fn face_normal<M: Arith>(math: &M, a: Point3, b: Point3, c: Point3) -> (r: FaceNormal)
    ensures
        forall|rules: ArithRules| #[trigger] rules.describe(*math) ==> r == rules.face_normal(a, b, c),
{
    let n = cross(math, minus(math, b, a), minus(math, c, a));
    let length = norm(math, n);
    FaceNormal { length, unit: shrunk(math, n, length) }
}

/// The arithmetic of transforms.
///
/// No contract is asked of an implementation. What is done with one is stated
/// for every [`SceneRules`] that describes the implementation at hand.
pub trait SceneMath: Arith {
    /// The transform that does one and then, before it, another.
    fn compose(&self, parent: &Transform, local: &Transform) -> Transform;

    /// The upper three rows and columns, times a vector.
    fn linear(&self, t: &Transform, v: Point3) -> Point3;

    /// The determinant of the upper three rows and columns.
    fn determinant(&self, t: &Transform) -> Scalar;

    /// The inverse of the upper three rows and columns, if there is one.
    fn inverse(&self, t: &Transform) -> Option<Axes>;
}

/// A matrix of three rows and columns, by its columns.
#[derive(Clone, Copy, PartialEq, Eq, Structural, Debug)]
pub struct Axes {
    pub x: Point3,
    pub y: Point3,
    pub z: Point3,
}

impl Axes {
    /// The matrix that changes nothing.
    #[verifier::allow_in_spec]
    pub fn identity() -> Axes
        returns
            (Axes {
                x: Point3 { x: Scalar { key: ONE_KEY }, y: Scalar { key: 0 }, z: Scalar { key: 0 } },
                y: Point3 { x: Scalar { key: 0 }, y: Scalar { key: ONE_KEY }, z: Scalar { key: 0 } },
                z: Point3 { x: Scalar { key: 0 }, y: Scalar { key: 0 }, z: Scalar { key: ONE_KEY } },
            }),
    {
        let o = Scalar::zero();
        let l = Scalar::one();
        Axes { x: Point3 { x: l, y: o, z: o }, y: Point3 { x: o, y: l, z: o }, z: Point3 { x: o, y: o, z: l } }
    }
}

/// Functions that an implementation of [`SceneMath`] may compute.
pub struct SceneRules {
    pub compose: spec_fn(Transform, Transform) -> Transform,
    pub linear: spec_fn(Transform, Point3) -> Point3,
    pub determinant: spec_fn(Transform) -> Scalar,
    pub inverse: spec_fn(Transform) -> Option<Axes>,
    pub arith: ArithRules,
}

/// The bottom row of a transform, without its last number.
#[verifier::allow_in_spec]
pub fn bottom_row(t: &Transform) -> Point3
    returns
        (Point3 { x: t.x.w, y: t.y.w, z: t.z.w }),
{
    Point3 { x: t.x.w, y: t.y.w, z: t.z.w }
}

/// Where a transform puts the origin.
#[verifier::allow_in_spec]
pub fn translation(t: &Transform) -> Point3
    returns
        (Point3 { x: t.w.x, y: t.w.y, z: t.w.z }),
{
    Point3 { x: t.w.x, y: t.w.y, z: t.w.z }
}

impl SceneRules {
    /// Whether an implementation computes these functions.
    pub open spec fn describe<M: SceneMath>(self, m: M) -> bool {
        &&& forall|a: Transform, b: Transform, r: Transform|
            #[trigger] call_ensures(M::compose, (&m, &a, &b), r) ==> r == (self.compose)(a, b)
        &&& forall|t: Transform, v: Point3, r: Point3|
            #[trigger] call_ensures(M::linear, (&m, &t, v), r) ==> r == (self.linear)(t, v)
        &&& forall|t: Transform, r: Scalar|
            #[trigger] call_ensures(M::determinant, (&m, &t), r) ==> r == (self.determinant)(t)
        &&& forall|t: Transform, r: Option<Axes>|
            #[trigger] call_ensures(M::inverse, (&m, &t), r) ==> r == (self.inverse)(t)
        &&& self.arith.describe(m)
    }

    /// A point, moved: divided by its homogeneous coordinate unless that is zero.
    pub open spec fn point(self, t: Transform, p: Point3) -> Point3 {
        let q = self.arith.plus((self.linear)(t, p), translation(&t));
        let n = self.arith.sum(self.arith.dot(bottom_row(&t), p), t.w.w);
        if n.is_zero() {
            q
        } else {
            self.arith.shrunk(q, n)
        }
    }

    /// A direction, moved: divided by its homogeneous coordinate unless that is
    /// zero.
    pub open spec fn vector(self, t: Transform, v: Point3) -> Point3 {
        let n = self.arith.dot(bottom_row(&t), v);
        if n.is_zero() {
            (self.linear)(t, v)
        } else {
            (self.linear)(t, self.arith.shrunk(v, n))
        }
    }

    /// A normal, moved with its surface by the transposed inverse and made unit
    /// length. Without an inverse it is not moved.
    pub open spec fn normal(self, t: Transform, n: Point3) -> Point3 {
        let m = match (self.inverse)(t) {
            Some(m) => m,
            None => Axes::identity(),
        };
        self.arith.unit(
            Point3 { x: self.arith.dot(m.x, n), y: self.arith.dot(m.y, n), z: self.arith.dot(m.z, n) },
        )
    }

    /// A tangent, moved and made unit length. Its sign is flipped by a mirror, a
    /// transform with a negative determinant.
    pub open spec fn tangent(self, t: Transform, v: Vec4) -> Vec4 {
        let q = self.arith.unit((self.linear)(t, Point3 { x: v.x, y: v.y, z: v.z }));
        let w = if (self.determinant)(t).lt(Scalar::zero()) {
            v.w.negated()
        } else {
            v.w
        };
        Vec4 { x: q.x, y: q.y, z: q.z, w }
    }
}

/// A point, moved.
fn moved_point<M: SceneMath>(math: &M, t: &Transform, p: Point3) -> (r: Point3)
    ensures
        forall|rules: SceneRules| #[trigger] rules.describe(*math) ==> r == rules.point(*t, p),
{
    let q = plus(math, math.linear(t, p), translation(t));
    let n = math.sum(dot(math, bottom_row(t), p), t.w.w);
    if n.is_zero() {
        q
    } else {
        shrunk(math, q, n)
    }
}

/// A direction, moved.
pub fn moved_vector<M: SceneMath>(math: &M, t: &Transform, v: Point3) -> (r: Point3)
    ensures
        forall|rules: SceneRules| #[trigger] rules.describe(*math) ==> r == rules.vector(*t, v),
{
    let n = dot(math, bottom_row(t), v);
    if n.is_zero() {
        math.linear(t, v)
    } else {
        math.linear(t, shrunk(math, v, n))
    }
}

/// A normal, moved with its surface and made unit length.
fn moved_normal<M: SceneMath>(math: &M, t: &Transform, n: Point3) -> (r: Point3)
    ensures
        forall|rules: SceneRules| #[trigger] rules.describe(*math) ==> r == rules.normal(*t, n),
{
    let m = match math.inverse(t) {
        Some(m) => m,
        None => Axes::identity(),
    };
    unit(math, Point3 { x: dot(math, m.x, n), y: dot(math, m.y, n), z: dot(math, m.z, n) })
}

/// A tangent, moved and made unit length; its sign is flipped by a mirror.
fn moved_tangent<M: SceneMath>(math: &M, t: &Transform, v: Vec4) -> (r: Vec4)
    ensures
        forall|rules: SceneRules| #[trigger] rules.describe(*math) ==> r == rules.tangent(*t, v),
{
    let q = unit(math, math.linear(t, Point3 { x: v.x, y: v.y, z: v.z }));
    let w = if math.determinant(t).lt(Scalar::zero()) {
        v.w.negated()
    } else {
        v.w
    };
    Vec4 { x: q.x, y: q.y, z: q.z, w }
}

/// A mirror flips the sign of every tangent, and no other transform does.
pub proof fn law_mirrors_flip_tangents(rules: SceneRules, t: Transform, v: Vec4)
    ensures
        (rules.determinant)(t).lt(Scalar::zero()) ==> rules.tangent(t, v).w == v.w.negated(),
        !(rules.determinant)(t).lt(Scalar::zero()) ==> rules.tangent(t, v).w == v.w,
{
}

/// Whether a corner of a mesh is there, with all that the mesh has at corners.
pub open spec fn has_corner(mesh: Mesh, local: u32) -> bool {
    &&& local < mesh.vertices@.len()
    &&& local < mesh.normals@.len()
    &&& mesh.uvs@.len() == 0 || local < mesh.uvs@.len()
    &&& mesh.colors@.len() == 0 || local < mesh.colors@.len()
    &&& mesh.tangents@.len() == 0 || local < mesh.tangents@.len()
}

/// Whether a mesh is there, with its material and the corners of its triangles.
pub open spec fn is_mesh(scene: Scene, m: int) -> bool {
    &&& 0 <= m < scene.meshes@.len()
    &&& scene.meshes@[m].material < scene.materials@.len()
    &&& forall|j: int|
        0 <= j < scene.meshes@[m].triangles@.len() ==> {
            let t = #[trigger] scene.meshes@[m].triangles@[j];
            has_corner(scene.meshes@[m], t.v0) && has_corner(scene.meshes@[m], t.v1) && has_corner(
                scene.meshes@[m],
                t.v2,
            )
        }
}

/// Whether the node at `i` and all under it are there with their meshes, and no
/// path of children is longer than `fuel` nodes. In a scene without cycles no
/// path is longer than the number of nodes.
pub open spec fn is_branch(scene: Scene, i: int, fuel: nat) -> bool
    decreases fuel,
{
    &&& fuel > 0
    &&& 0 <= i < scene.nodes@.len()
    &&& forall|k: int|
        0 <= k < scene.nodes@[i].meshes@.len() ==> is_mesh(scene, #[trigger] scene.nodes@[i].meshes@[k] as int)
    &&& forall|k: int|
        #![trigger scene.nodes@[i].children@[k]]
        0 <= k < scene.nodes@[i].children@.len() ==> is_branch(
            scene,
            scene.nodes@[i].children@[k] as int,
            (fuel - 1) as nat,
        )
}

/// How much there is to flatten: nodes, their meshes, and corners of triangles.
#[verifier::ext_equal]
pub struct Load {
    pub visits: nat,
    pub meshes: nat,
    pub corners: nat,
}

impl Load {
    pub open spec fn plus(self, other: Load) -> Load {
        Load {
            visits: self.visits + other.visits,
            meshes: self.meshes + other.meshes,
            corners: self.corners + other.corners,
        }
    }
}

pub open spec fn no_load() -> Load {
    Load { visits: 0, meshes: 0, corners: 0 }
}

/// What the first `n` meshes of a node amount to.
pub open spec fn meshes_load(scene: Scene, i: int, n: nat) -> Load
    decreases n,
{
    if n == 0 {
        no_load()
    } else {
        let m = scene.nodes@[i].meshes@[n - 1] as int;
        meshes_load(scene, i, (n - 1) as nat).plus(
            Load { visits: 0, meshes: 1, corners: 3 * scene.meshes@[m].triangles@.len() },
        )
    }
}

/// What a node and all under it amount to.
pub open spec fn branch_load(scene: Scene, i: int, fuel: nat) -> Load
    decreases fuel, 0nat,
{
    if fuel == 0 {
        no_load()
    } else {
        (Load { visits: 1, meshes: 0, corners: 0 }).plus(
            meshes_load(scene, i, scene.nodes@[i].meshes@.len()),
        ).plus(children_load(scene, i, (fuel - 1) as nat, scene.nodes@[i].children@.len()))
    }
}

/// What the first `n` children of a node amount to.
pub open spec fn children_load(scene: Scene, i: int, fuel: nat, n: nat) -> Load
    decreases fuel, n + 1,
{
    if n == 0 {
        no_load()
    } else {
        children_load(scene, i, fuel, (n - 1) as nat).plus(
            branch_load(scene, scene.nodes@[i].children@[n - 1] as int, fuel),
        )
    }
}

/// What the first `n` roots amount to.
pub open spec fn roots_load(scene: Scene, n: nat) -> Load
    decreases n,
{
    if n == 0 {
        no_load()
    } else {
        roots_load(scene, (n - 1) as nat).plus(
            branch_load(scene, scene.roots@[n - 1] as int, scene.nodes@.len()),
        )
    }
}

/// Whether a scene can be flattened: all it names is there, its nodes have no
/// cycles, and vertices and lights can be counted in 32 bits.
pub open spec fn is_flattenable(scene: Scene) -> bool {
    &&& forall|k: int|
        0 <= k < scene.roots@.len() ==> is_branch(scene, #[trigger] scene.roots@[k] as int, scene.nodes@.len())
    &&& roots_load(scene, scene.roots@.len()).corners < u32::MAX
    &&& scene.lights@.len() + roots_load(scene, scene.roots@.len()).meshes < u32::MAX
}

/// A node, met on the way from a root, and where that puts it in the world.
pub struct Visit {
    pub node: int,
    pub world: Transform,
}

/// The visits of a node and all under it: itself, then its children, the last
/// child first.
pub open spec fn branch_visits(rules: SceneRules, scene: Scene, i: int, parent: Transform, fuel: nat) -> Seq<Visit>
    decreases fuel, 0nat,
{
    if fuel == 0 {
        Seq::empty()
    } else {
        let world = (rules.compose)(parent, scene.nodes@[i].transform);
        seq![Visit { node: i, world }] + children_visits(
            rules,
            scene,
            i,
            world,
            (fuel - 1) as nat,
            scene.nodes@[i].children@.len(),
        )
    }
}

/// The visits of the first `n` children of a node, the last first.
pub open spec fn children_visits(
    rules: SceneRules,
    scene: Scene,
    i: int,
    world: Transform,
    fuel: nat,
    n: nat,
) -> Seq<Visit>
    decreases fuel, n + 1,
{
    if n == 0 {
        Seq::empty()
    } else {
        branch_visits(rules, scene, scene.nodes@[i].children@[n - 1] as int, world, fuel) + children_visits(
            rules,
            scene,
            i,
            world,
            fuel,
            (n - 1) as nat,
        )
    }
}

/// The visits of the first `n` roots, the last first.
pub open spec fn roots_visits(rules: SceneRules, scene: Scene, n: nat) -> Seq<Visit>
    decreases n,
{
    if n == 0 {
        Seq::empty()
    } else {
        branch_visits(rules, scene, scene.roots@[n - 1] as int, Transform::identity(), scene.nodes@.len())
            + roots_visits(rules, scene, (n - 1) as nat)
    }
}

/// A corner of a mesh of a node.
pub struct Corner {
    pub node: int,
    pub mesh: int,
    pub local: int,
}

/// A flattened scene, each vertex with the corner it was made of.
#[verifier::ext_equal]
pub struct Flat {
    pub corners: Seq<Corner>,
    pub vertices: Seq<Point3>,
    pub normals: Seq<Point3>,
    pub uvs: Seq<Vec2>,
    pub colors: Seq<Color>,
    pub tangents: Seq<Vec4>,
    pub meta: Seq<TriangleMeta>,
    pub emitters: Seq<MeshEmitterView>,
}

/// Nothing, flattened.
pub open spec fn empty_flat() -> Flat {
    Flat {
        corners: Seq::empty(),
        vertices: Seq::empty(),
        normals: Seq::empty(),
        uvs: Seq::empty(),
        colors: Seq::empty(),
        tangents: Seq::empty(),
        meta: Seq::empty(),
        emitters: Seq::empty(),
    }
}

/// Whether every triangle names one of `n` materials.
pub open spec fn knows_materials(flat: Flat, n: nat) -> bool {
    forall|i: int| 0 <= i < flat.meta.len() ==> (#[trigger] flat.meta[i]).material < n
}

/// The texture point of a corner; without any, the origin.
pub open spec fn uv_at(mesh: Mesh, local: int) -> Vec2 {
    if mesh.uvs@.len() == 0 {
        Vec2::zero()
    } else {
        mesh.uvs@[local]
    }
}

/// With the vertex of a corner, added unless it is there.
pub open spec fn with_corner(rules: SceneRules, scene: Scene, flat: Flat, v: Visit, m: int, local: u32) -> Flat {
    let corner = Corner { node: v.node, mesh: m, local: local as int };
    let mesh = scene.meshes@[m];
    if flat.corners.contains(corner) {
        flat
    } else {
        Flat {
            corners: flat.corners.push(corner),
            vertices: flat.vertices.push(rules.point(v.world, mesh.vertices@[local as int])),
            normals: flat.normals.push(rules.normal(v.world, mesh.normals@[local as int])),
            uvs: flat.uvs.push(uv_at(mesh, local as int)),
            colors: flat.colors.push(
                if mesh.colors@.len() == 0 {
                    white()
                } else {
                    mesh.colors@[local as int]
                },
            ),
            tangents: flat.tangents.push(
                if mesh.tangents@.len() == 0 {
                    Vec4::zero()
                } else {
                    rules.tangent(v.world, mesh.tangents@[local as int])
                },
            ),
            ..flat
        }
    }
}

/// The vertex of a corner.
pub open spec fn vertex_of(flat: Flat, v: Visit, m: int, local: u32) -> u32 {
    flat.corners.index_of(Corner { node: v.node, mesh: m, local: local as int }) as u32
}

/// With a triangle of a mesh.
pub open spec fn with_triangle(
    rules: SceneRules,
    scene: Scene,
    flat: Flat,
    v: Visit,
    m: int,
    light: u32,
    t: Triangle,
) -> Flat {
    let mesh = scene.meshes@[m];
    let a = with_corner(rules, scene, flat, v, m, t.v0);
    let b = with_corner(rules, scene, a, v, m, t.v1);
    let c = with_corner(rules, scene, b, v, m, t.v2);
    Flat {
        meta: c.meta.push(
            TriangleMeta {
                material: mesh.material,
                light,
                v0: vertex_of(c, v, m, t.v0),
                v1: vertex_of(c, v, m, t.v1),
                v2: vertex_of(c, v, m, t.v2),
                double_sided: scene.materials@[mesh.material as int].is_transmissive(),
            },
        ),
        ..c
    }
}

/// With the first `n` triangles of a mesh.
pub open spec fn with_triangles(
    rules: SceneRules,
    scene: Scene,
    flat: Flat,
    v: Visit,
    m: int,
    light: u32,
    n: nat,
) -> Flat
    decreases n,
{
    if n == 0 {
        flat
    } else {
        with_triangle(
            rules,
            scene,
            with_triangles(rules, scene, flat, v, m, light, (n - 1) as nat),
            v,
            m,
            light,
            scene.meshes@[m].triangles@[n - 1],
        )
    }
}

/// The light-giving triangles among the first `n` of a mesh: those with an area.
pub open spec fn emitter_tris(rules: SceneRules, scene: Scene, v: Visit, m: int, n: nat) -> Seq<EmitterTri>
    decreases n,
{
    if n == 0 {
        Seq::empty()
    } else {
        let rest = emitter_tris(rules, scene, v, m, (n - 1) as nat);
        let mesh = scene.meshes@[m];
        let t = mesh.triangles@[n - 1];
        let a = rules.point(v.world, mesh.vertices@[t.v0 as int]);
        let b = rules.point(v.world, mesh.vertices@[t.v1 as int]);
        let c = rules.point(v.world, mesh.vertices@[t.v2 as int]);
        let face = rules.arith.face_normal(a, b, c);
        if Scalar::zero().lt(face.length) {
            rest.push(
                EmitterTri {
                    v0: a,
                    v1: b,
                    v2: c,
                    uv0: uv_at(mesh, t.v0 as int),
                    uv1: uv_at(mesh, t.v1 as int),
                    uv2: uv_at(mesh, t.v2 as int),
                    normal: face.unit,
                },
            )
        } else {
            rest
        }
    }
}

/// The area light that a mesh is, if it gives light.
pub open spec fn emitter_at(rules: SceneRules, scene: Scene, v: Visit, m: int) -> Option<MeshEmitterView> {
    let mesh = scene.meshes@[m];
    let material = scene.materials@[mesh.material as int];
    if material.is_emissive() {
        let tris = emitter_tris(rules, scene, v, m, mesh.triangles@.len());
        rules.arith.emitter_of(tris, material.emissive, material.emissive_texture)
    } else {
        None
    }
}

/// With a mesh: its triangles, and the light that it is. Area lights are
/// counted after the scene's own lights.
pub open spec fn with_mesh(rules: SceneRules, scene: Scene, flat: Flat, v: Visit, m: int) -> Flat {
    let n = scene.meshes@[m].triangles@.len();
    match emitter_at(rules, scene, v, m) {
        Some(e) => {
            let light = (scene.lights@.len() + flat.emitters.len()) as u32;
            let f = with_triangles(rules, scene, flat, v, m, light, n);
            Flat { emitters: f.emitters.push(e), ..f }
        },
        None => with_triangles(rules, scene, flat, v, m, u32::MAX, n),
    }
}

/// With the first `n` meshes of a node.
pub open spec fn with_meshes(rules: SceneRules, scene: Scene, flat: Flat, v: Visit, n: nat) -> Flat
    decreases n,
{
    if n == 0 {
        flat
    } else {
        with_mesh(
            rules,
            scene,
            with_meshes(rules, scene, flat, v, (n - 1) as nat),
            v,
            scene.nodes@[v.node].meshes@[n - 1] as int,
        )
    }
}

/// With all meshes of each visited node.
pub open spec fn with_visits(rules: SceneRules, scene: Scene, flat: Flat, visits: Seq<Visit>) -> Flat
    decreases visits.len(),
{
    if visits.len() == 0 {
        flat
    } else {
        let v = visits.last();
        with_meshes(
            rules,
            scene,
            with_visits(rules, scene, flat, visits.drop_last()),
            v,
            scene.nodes@[v.node].meshes@.len(),
        )
    }
}

/// A scene, flattened.
pub open spec fn flattened(rules: SceneRules, scene: Scene) -> Flat {
    with_visits(rules, scene, empty_flat(), roots_visits(rules, scene, scene.roots@.len()))
}

/// A corner as one number.
spec fn packed(c: Corner) -> int {
    c.node * 0x1_0000_0000_0000_0000 + c.mesh * 0x1_0000_0000 + c.local
}

/// Whether a corner can be told from others by one 128-bit number.
spec fn is_packable(c: Corner) -> bool {
    0 <= c.node <= u64::MAX && 0 <= c.mesh <= u32::MAX && 0 <= c.local <= u32::MAX
}

proof fn lemma_packed_differ(a: Corner, b: Corner)
    requires
        is_packable(a),
        is_packable(b),
        packed(a) == packed(b),
    ensures
        a == b,
{
    if a.node < b.node || b.node < a.node {
        assert(false);
    }
    if a.mesh < b.mesh || b.mesh < a.mesh {
        assert(false);
    }
}

proof fn lemma_packed_fits(c: Corner)
    requires
        is_packable(c),
    ensures
        0 <= packed(c) <= u128::MAX,
{
}

/// Whether a map leads from each corner to its vertex, and from nothing else.
spec fn is_index(map: Map<u128, usize>, corners: Seq<Corner>) -> bool {
    &&& forall|i: int|
        0 <= i < corners.len() ==> is_packable(#[trigger] corners[i]) && map.contains_key(packed(corners[i]) as u128)
            && map[packed(corners[i]) as u128] == i
    &&& forall|k: u128| #[trigger] map.contains_key(k) ==> map[k] < corners.len() && packed(corners[map[k] as int]) == k
}

/// Flattens a scene and builds the tree over it.
pub struct BvhBuilder {
    world_vertices: Vec<Point3>,
    world_normals: Vec<Point3>,
    world_uvs: Vec<Vec2>,
    world_colors: Vec<Color>,
    world_tangents: Vec<Vec4>,
    /// One entry per input triangle.
    flat_meta: Vec<TriangleMeta>,
    emitter_meshes: Vec<MeshEmitter>,
    /// The corner that each vertex was made of.
    corners: Ghost<Seq<Corner>>,
}

impl View for BvhBuilder {
    type V = Flat;

    closed spec fn view(&self) -> Flat {
        Flat {
            corners: self.corners@,
            vertices: self.world_vertices@,
            normals: self.world_normals@,
            uvs: self.world_uvs@,
            colors: self.world_colors@,
            tangents: self.world_tangents@,
            meta: self.flat_meta@,
            emitters: self.emitter_meshes@.map_values(|e: MeshEmitter| e@),
        }
    }
}

/// Whether there is one vertex of every kind per corner, no corner twice, and
/// the vertices of each triangle are there.
pub open spec fn is_sound(flat: Flat) -> bool {
    &&& flat.vertices.len() == flat.corners.len()
    &&& flat.normals.len() == flat.corners.len()
    &&& flat.uvs.len() == flat.corners.len()
    &&& flat.colors.len() == flat.corners.len()
    &&& flat.tangents.len() == flat.corners.len()
    &&& flat.corners.no_duplicates()
    &&& forall|i: int| 0 <= i < flat.meta.len() ==> has_vertices(#[trigger] flat.meta[i], flat.corners.len())
}

/// Whether the vertices of a triangle are there.
pub open spec fn has_vertices(t: TriangleMeta, n: nat) -> bool {
    t.v0 < n && t.v1 < n && t.v2 < n
}

/// The texture point of a corner; without any, the origin.
fn get_uv(mesh: &Mesh, local: u32) -> (r: Vec2)
    requires
        has_corner(*mesh, local),
    ensures
        r == uv_at(*mesh, local as int),
{
    if mesh.uvs.len() == 0 {
        Vec2::zero()
    } else {
        mesh.uvs[local as usize]
    }
}

impl BvhBuilder {
    /// The vertex of a corner, added unless it is there.
    fn get_or_add_vertex<M: SceneMath>(
        &mut self,
        math: &M,
        scene: &Scene,
        map: &mut HashMap<u128, usize>,
        node_idx: usize,
        world: &Transform,
        mesh_idx: u32,
        local: u32,
    ) -> (r: u32)
        requires
            is_sound(old(self)@),
            knows_materials(old(self)@, scene.materials@.len()),
            is_index(old(map)@, old(self)@.corners),
            is_mesh(*scene, mesh_idx as int),
            has_corner(scene.meshes@[mesh_idx as int], local),
            old(self)@.corners.len() < u32::MAX,
        ensures
            is_sound(final(self)@),
            knows_materials(final(self)@, scene.materials@.len()),
            is_index(final(map)@, final(self)@.corners),
            old(self)@.corners.len() <= final(self)@.corners.len() <= old(self)@.corners.len() + 1,
            final(self)@.corners.contains(
                (Corner { node: node_idx as int, mesh: mesh_idx as int, local: local as int }),
            ),
            r == vertex_of(
                final(self)@,
                (Visit { node: node_idx as int, world: *world }),
                mesh_idx as int,
                local,
            ),
            r < final(self)@.corners.len(),
            final(self)@.meta == old(self)@.meta,
            final(self)@.emitters == old(self)@.emitters,
            forall|i: int|
                0 <= i < old(self)@.corners.len() ==> #[trigger] final(self)@.corners[i] == old(self)@.corners[i],
            forall|rules: SceneRules| #[trigger]
                rules.describe(*math) ==> final(self)@ == with_corner(
                    rules,
                    *scene,
                    old(self)@,
                    (Visit { node: node_idx as int, world: *world }),
                    mesh_idx as int,
                    local,
                ),
    {
        let ghost corner = Corner { node: node_idx as int, mesh: mesh_idx as int, local: local as int };
        let ghost flat0 = self@;
        proof {
            lemma_packed_fits(corner);
        }
        let key: u128 = node_idx as u128 * 0x1_0000_0000_0000_0000 + mesh_idx as u128 * 0x1_0000_0000 + local as u128;
        assert(key == packed(corner));
        if let Some(found) = map.get(&key) {
            let at: usize = *found;
            proof {
                lemma_packed_differ(flat0.corners[at as int], corner);
                assert(flat0.corners.contains(corner));
                assert(flat0.corners.index_of(corner) == at) by {
                    let i = flat0.corners.index_of(corner);
                    assert(flat0.corners[i] == corner);
                }
            }
            return at as u32;
        }
        proof {
            assert(!flat0.corners.contains(corner)) by {
                if flat0.corners.contains(corner) {
                    let i = choose|i: int| 0 <= i < flat0.corners.len() && flat0.corners[i] == corner;
                    assert(map@.contains_key(packed(flat0.corners[i]) as u128));
                }
            }
        }
        let mesh = &scene.meshes[mesh_idx as usize];
        let l: usize = local as usize;
        let at: usize = self.world_vertices.len();
        self.world_normals.push(moved_normal(math, world, mesh.normals[l]));
        self.world_uvs.push(get_uv(mesh, local));
        let color = if mesh.colors.len() == 0 {
            white()
        } else {
            mesh.colors[l]
        };
        self.world_colors.push(color);
        let tangent = if mesh.tangents.len() == 0 {
            Vec4::zero()
        } else {
            moved_tangent(math, world, mesh.tangents[l])
        };
        self.world_tangents.push(tangent);
        self.world_vertices.push(moved_point(math, world, mesh.vertices[l]));
        map.insert(key, at);
        proof {
            self.corners@ = self.corners@.push(corner);
            let after = self@.corners;
            assert(after[at as int] == corner);
            assert forall|i: int, j: int| 0 <= i < after.len() && 0 <= j < after.len() && i != j implies after[i]
                != after[j] by {
                if i < at && j < at {
                    assert(flat0.corners[i] != flat0.corners[j]);
                } else if i < at {
                    assert(flat0.corners[i] != corner);
                } else if j < at {
                    assert(flat0.corners[j] != corner);
                }
            }
            assert(after.index_of(corner) == at) by {
                let i = after.index_of(corner);
                assert(after[i] == corner);
            }
            assert forall|i: int| 0 <= i < after.len() implies is_packable(#[trigger] after[i]) && map@.contains_key(
                packed(after[i]) as u128,
            ) && map@[packed(after[i]) as u128] == i by {
                if i < at {
                    assert(after[i] == flat0.corners[i]);
                    lemma_packed_fits(after[i]);
                    if packed(after[i]) == key {
                        lemma_packed_differ(after[i], corner);
                    }
                }
            }
            assert forall|i: int| 0 <= i < self@.meta.len() implies has_vertices(
                #[trigger] self@.meta[i],
                after.len(),
            ) by {
                assert(has_vertices(flat0.meta[i], flat0.corners.len()));
            }
            assert forall|i: int| 0 <= i < self@.meta.len() implies (#[trigger] self@.meta[i]).material
                < scene.materials@.len() by {
                assert(flat0.meta[i].material < scene.materials@.len());
            }
        }
        at as u32
    }
}

/// A corner's place does not change as others are added.
proof fn lemma_index_kept(a: Seq<Corner>, b: Seq<Corner>, c: Corner)
    requires
        a.contains(c),
        b.no_duplicates(),
        a.len() <= b.len(),
        forall|i: int| 0 <= i < a.len() ==> #[trigger] b[i] == a[i],
    ensures
        b.index_of(c) == a.index_of(c),
        b.contains(c),
{
    let i = a.index_of(c);
    assert(a[i] == c);
    assert(b[i] == c);
    let j = b.index_of(c);
    assert(b[j] == c);
}

impl BvhBuilder {
    /// Adds a triangle of a mesh.
    fn add_triangle<M: SceneMath>(
        &mut self,
        math: &M,
        scene: &Scene,
        map: &mut HashMap<u128, usize>,
        node_idx: usize,
        world: &Transform,
        mesh_idx: u32,
        light: u32,
        t: Triangle,
    )
        requires
            is_sound(old(self)@),
            knows_materials(old(self)@, scene.materials@.len()),
            is_index(old(map)@, old(self)@.corners),
            is_mesh(*scene, mesh_idx as int),
            has_corner(scene.meshes@[mesh_idx as int], t.v0),
            has_corner(scene.meshes@[mesh_idx as int], t.v1),
            has_corner(scene.meshes@[mesh_idx as int], t.v2),
            old(self)@.corners.len() + 3 <= u32::MAX,
        ensures
            is_sound(final(self)@),
            knows_materials(final(self)@, scene.materials@.len()),
            is_index(final(map)@, final(self)@.corners),
            final(self)@.corners.len() <= old(self)@.corners.len() + 3,
            final(self)@.emitters == old(self)@.emitters,
            forall|rules: SceneRules| #[trigger]
                rules.describe(*math) ==> final(self)@ == with_triangle(
                    rules,
                    *scene,
                    old(self)@,
                    (Visit { node: node_idx as int, world: *world }),
                    mesh_idx as int,
                    light,
                    t,
                ),
    {
        let material: u32 = scene.meshes[mesh_idx as usize].material;
        let v0: u32 = self.get_or_add_vertex(math, scene, map, node_idx, world, mesh_idx, t.v0);
        let ghost a = self@;
        let v1: u32 = self.get_or_add_vertex(math, scene, map, node_idx, world, mesh_idx, t.v1);
        let ghost b = self@;
        let v2: u32 = self.get_or_add_vertex(math, scene, map, node_idx, world, mesh_idx, t.v2);
        let ghost c = self@;
        proof {
            let n = node_idx as int;
            let m = mesh_idx as int;
            assert forall|i: int| 0 <= i < a.corners.len() implies #[trigger] c.corners[i] == a.corners[i] by {
                assert(b.corners[i] == a.corners[i]);
            }
            lemma_index_kept(a.corners, c.corners, Corner { node: n, mesh: m, local: t.v0 as int });
            lemma_index_kept(b.corners, c.corners, Corner { node: n, mesh: m, local: t.v1 as int });
        }
        let double_sided: bool = scene.materials[material as usize].is_transmissive();
        self.flat_meta.push(TriangleMeta { material, light, v0, v1, v2, double_sided });
        proof {
            assert forall|i: int| 0 <= i < self@.meta.len() implies has_vertices(
                #[trigger] self@.meta[i],
                self@.corners.len(),
            ) by {
                if i < c.meta.len() {
                    assert(has_vertices(c.meta[i], c.corners.len()));
                }
            }
        }
    }

    /// The area light that a mesh is, if it gives light.
    fn make_emitter<M: SceneMath>(math: &M, scene: &Scene, Ghost(node): Ghost<int>, world: &Transform, mesh_idx: u32) -> (r: Option<
        MeshEmitter,
    >)
        requires
            is_mesh(*scene, mesh_idx as int),
        ensures
            forall|rules: SceneRules| #[trigger]
                rules.describe(*math) ==> {
                    let e = emitter_at(rules, *scene, Visit { node, world: *world }, mesh_idx as int);
                    match r {
                        Some(m) => e == Some(m@),
                        None => e is None,
                    }
                },
    {
        let mesh = &scene.meshes[mesh_idx as usize];
        let material = scene.materials[mesh.material as usize];
        if !material.is_emissive() {
            return None;
        }
        let mut tris: Vec<EmitterTri> = Vec::new();
        let mut j: usize = 0;
        while j < mesh.triangles.len()
            invariant
                j <= mesh.triangles.len(),
                *mesh == scene.meshes@[mesh_idx as int],
                is_mesh(*scene, mesh_idx as int),
                forall|rules: SceneRules| #[trigger]
                    rules.describe(*math) ==> tris@ == emitter_tris(
                        rules,
                        *scene,
                        (Visit { node, world: *world }),
                        mesh_idx as int,
                        j as nat,
                    ),
            decreases mesh.triangles.len() - j,
        {
            let t = mesh.triangles[j];
            assert(scene.meshes@[mesh_idx as int].triangles@[j as int] == t);
            let a = moved_point(math, world, mesh.vertices[t.v0 as usize]);
            let b = moved_point(math, world, mesh.vertices[t.v1 as usize]);
            let c = moved_point(math, world, mesh.vertices[t.v2 as usize]);
            let face = face_normal(math, a, b, c);
            if Scalar::zero().lt(face.length) {
                tris.push(
                    EmitterTri {
                        v0: a,
                        v1: b,
                        v2: c,
                        uv0: get_uv(mesh, t.v0),
                        uv1: get_uv(mesh, t.v1),
                        uv2: get_uv(mesh, t.v2),
                        normal: face.unit,
                    },
                );
            }
            j = j + 1;
        }
        MeshEmitter::new(math, tris, material.emissive, material.emissive_texture)
    }

    /// Adds a mesh: its triangles, and the light that it is.
    fn add_mesh<M: SceneMath>(
        &mut self,
        math: &M,
        scene: &Scene,
        map: &mut HashMap<u128, usize>,
        node_idx: usize,
        world: &Transform,
        mesh_idx: u32,
    )
        requires
            is_sound(old(self)@),
            knows_materials(old(self)@, scene.materials@.len()),
            is_index(old(map)@, old(self)@.corners),
            is_mesh(*scene, mesh_idx as int),
            old(self)@.corners.len() + 3 * scene.meshes@[mesh_idx as int].triangles@.len() <= u32::MAX,
            scene.lights@.len() + old(self)@.emitters.len() < u32::MAX,
        ensures
            is_sound(final(self)@),
            knows_materials(final(self)@, scene.materials@.len()),
            is_index(final(map)@, final(self)@.corners),
            final(self)@.corners.len() <= old(self)@.corners.len() + 3
                * scene.meshes@[mesh_idx as int].triangles@.len(),
            final(self)@.emitters.len() <= old(self)@.emitters.len() + 1,
            forall|rules: SceneRules| #[trigger]
                rules.describe(*math) ==> final(self)@ == with_mesh(
                    rules,
                    *scene,
                    old(self)@,
                    (Visit { node: node_idx as int, world: *world }),
                    mesh_idx as int,
                ),
    {
        let ghost flat0 = self@;
        let emitter = Self::make_emitter(math, scene, Ghost(node_idx as int), world, mesh_idx);
        let light: u32 = if emitter.is_some() {
            scene.lights.len() as u32 + self.emitter_meshes.len() as u32
        } else {
            u32::MAX
        };
        let mesh = &scene.meshes[mesh_idx as usize];
        let mut j: usize = 0;
        while j < mesh.triangles.len()
            invariant
                j <= mesh.triangles.len(),
                *mesh == scene.meshes@[mesh_idx as int],
                is_mesh(*scene, mesh_idx as int),
                is_sound(self@),
                knows_materials(self@, scene.materials@.len()),
                is_index(map@, self@.corners),
                self@.corners.len() <= flat0.corners.len() + 3 * j,
                flat0.corners.len() + 3 * mesh.triangles.len() <= u32::MAX,
                self@.emitters == flat0.emitters,
                forall|rules: SceneRules| #[trigger]
                    rules.describe(*math) ==> self@ == with_triangles(
                        rules,
                        *scene,
                        flat0,
                        (Visit { node: node_idx as int, world: *world }),
                        mesh_idx as int,
                        light,
                        j as nat,
                    ),
            decreases mesh.triangles.len() - j,
        {
            let t = mesh.triangles[j];
            assert(scene.meshes@[mesh_idx as int].triangles@[j as int] == t);
            self.add_triangle(math, scene, map, node_idx, world, mesh_idx, light, t);
            j = j + 1;
        }
        if let Some(e) = emitter {
            let ghost before = self@;
            self.emitter_meshes.push(e);
            proof {
                assert(self@.emitters =~= before.emitters.push(e@));
                assert forall|i: int| 0 <= i < self@.meta.len() implies has_vertices(
                    #[trigger] self@.meta[i],
                    self@.corners.len(),
                ) by {
                    assert(has_vertices(before.meta[i], before.corners.len()));
                }
                assert forall|i: int| 0 <= i < self@.meta.len() implies (#[trigger] self@.meta[i]).material
                    < scene.materials@.len() by {
                    assert(before.meta[i].material < scene.materials@.len());
                }
            }
        }
    }

    /// Adds all meshes of a node.
    fn add_node<M: SceneMath>(
        &mut self,
        math: &M,
        scene: &Scene,
        map: &mut HashMap<u128, usize>,
        node_idx: usize,
        world: &Transform,
    )
        requires
            is_sound(old(self)@),
            knows_materials(old(self)@, scene.materials@.len()),
            is_index(old(map)@, old(self)@.corners),
            node_idx < scene.nodes@.len(),
            forall|k: int|
                0 <= k < scene.nodes@[node_idx as int].meshes@.len() ==> is_mesh(
                    *scene,
                    #[trigger] scene.nodes@[node_idx as int].meshes@[k] as int,
                ),
            ({
                let load = meshes_load(*scene, node_idx as int, scene.nodes@[node_idx as int].meshes@.len());
                &&& old(self)@.corners.len() + load.corners <= u32::MAX
                &&& scene.lights@.len() + old(self)@.emitters.len() + load.meshes <= u32::MAX
            }),
        ensures
            is_sound(final(self)@),
            knows_materials(final(self)@, scene.materials@.len()),
            is_index(final(map)@, final(self)@.corners),
            ({
                let load = meshes_load(*scene, node_idx as int, scene.nodes@[node_idx as int].meshes@.len());
                &&& final(self)@.corners.len() <= old(self)@.corners.len() + load.corners
                &&& final(self)@.emitters.len() <= old(self)@.emitters.len() + load.meshes
            }),
            forall|rules: SceneRules| #[trigger]
                rules.describe(*math) ==> final(self)@ == with_meshes(
                    rules,
                    *scene,
                    old(self)@,
                    (Visit { node: node_idx as int, world: *world }),
                    scene.nodes@[node_idx as int].meshes@.len(),
                ),
    {
        let ghost flat0 = self@;
        let node = &scene.nodes[node_idx];
        let mut k: usize = 0;
        while k < node.meshes.len()
            invariant
                k <= node.meshes.len(),
                *node == scene.nodes@[node_idx as int],
                is_sound(self@),
                knows_materials(self@, scene.materials@.len()),
                is_index(map@, self@.corners),
                forall|k: int|
                    0 <= k < scene.nodes@[node_idx as int].meshes@.len() ==> is_mesh(
                        *scene,
                        #[trigger] scene.nodes@[node_idx as int].meshes@[k] as int,
                    ),
                self@.corners.len() <= flat0.corners.len() + meshes_load(*scene, node_idx as int, k as nat).corners,
                self@.emitters.len() <= flat0.emitters.len() + meshes_load(*scene, node_idx as int, k as nat).meshes,
                flat0.corners.len() + meshes_load(*scene, node_idx as int, node.meshes@.len()).corners <= u32::MAX,
                scene.lights@.len() + flat0.emitters.len() + meshes_load(
                    *scene,
                    node_idx as int,
                    node.meshes@.len(),
                ).meshes <= u32::MAX,
                forall|rules: SceneRules| #[trigger]
                    rules.describe(*math) ==> self@ == with_meshes(
                        rules,
                        *scene,
                        flat0,
                        (Visit { node: node_idx as int, world: *world }),
                        k as nat,
                    ),
            decreases node.meshes.len() - k,
        {
            let mesh_idx: u32 = node.meshes[k];
            assert(scene.nodes@[node_idx as int].meshes@[k as int] == mesh_idx);
            proof {
                lemma_meshes_load_prefix(*scene, node_idx as int, (k + 1) as nat, node.meshes@.len());
            }
            self.add_mesh(math, scene, map, node_idx, world, mesh_idx);
            k = k + 1;
        }
    }
}

proof fn lemma_meshes_load_prefix(scene: Scene, i: int, a: nat, b: nat)
    requires
        a <= b,
    ensures
        meshes_load(scene, i, a).corners <= meshes_load(scene, i, b).corners,
        meshes_load(scene, i, a).meshes <= meshes_load(scene, i, b).meshes,
        meshes_load(scene, i, a).visits == 0,
    decreases b,
{
    if a < b {
        lemma_meshes_load_prefix(scene, i, a, (b - 1) as nat);
    } else if a > 0 {
        lemma_meshes_load_prefix(scene, i, (a - 1) as nat, (a - 1) as nat);
    }
}

/// A node to visit, with where its parent is and how deep it may go.
struct Pending {
    node: int,
    parent: Transform,
    fuel: nat,
}

/// What is still to be visited, the last first.
spec fn pending_visits(rules: SceneRules, scene: Scene, stack: Seq<Pending>) -> Seq<Visit>
    decreases stack.len(),
{
    if stack.len() == 0 {
        Seq::empty()
    } else {
        let p = stack.last();
        branch_visits(rules, scene, p.node, p.parent, p.fuel) + pending_visits(rules, scene, stack.drop_last())
    }
}

/// What it amounts to.
spec fn pending_load(scene: Scene, stack: Seq<Pending>) -> Load
    decreases stack.len(),
{
    if stack.len() == 0 {
        no_load()
    } else {
        pending_load(scene, stack.drop_last()).plus(branch_load(scene, stack.last().node, stack.last().fuel))
    }
}

/// Whether all of it can be visited.
spec fn is_pending(scene: Scene, stack: Seq<Pending>) -> bool {
    forall|i: int| 0 <= i < stack.len() ==> is_branch(scene, (#[trigger] stack[i]).node, stack[i].fuel)
}

/// Whether a stack is as its pending nodes say.
spec fn is_stack_of(stack: Seq<(usize, Transform)>, pending: Seq<Pending>) -> bool {
    &&& stack.len() == pending.len()
    &&& forall|i: int|
        0 <= i < stack.len() ==> (#[trigger] stack[i]).0 == pending[i].node && stack[i].1 == pending[i].parent
}

proof fn lemma_pending_push(rules: SceneRules, scene: Scene, stack: Seq<Pending>, p: Pending)
    ensures
        pending_visits(rules, scene, stack.push(p)) == branch_visits(rules, scene, p.node, p.parent, p.fuel)
            + pending_visits(rules, scene, stack),
        pending_load(scene, stack.push(p)) == pending_load(scene, stack).plus(branch_load(scene, p.node, p.fuel)),
{
    assert(stack.push(p).drop_last() =~= stack);
}

proof fn lemma_with_visits_split(rules: SceneRules, scene: Scene, flat: Flat, a: Seq<Visit>, b: Seq<Visit>)
    ensures
        with_visits(rules, scene, flat, a + b) == with_visits(rules, scene, with_visits(rules, scene, flat, a), b),
    decreases b.len(),
{
    if b.len() == 0 {
        assert(a + b =~= a);
    } else {
        assert((a + b).drop_last() =~= a + b.drop_last());
        lemma_with_visits_split(rules, scene, flat, a, b.drop_last());
    }
}

impl BvhBuilder {
    /// Flattens a scene.
    pub fn new<M: SceneMath>(math: &M, scene: &Scene) -> (r: BvhBuilder)
        requires
            is_flattenable(*scene),
        ensures
            is_sound(r@),
            knows_materials(r@, scene.materials@.len()),
            r@.corners.len() < u32::MAX,
            forall|rules: SceneRules| #[trigger] rules.describe(*math) ==> r@ == flattened(rules, *scene),
    {
        let mut builder = BvhBuilder {
            world_vertices: Vec::new(),
            world_normals: Vec::new(),
            world_uvs: Vec::new(),
            world_colors: Vec::new(),
            world_tangents: Vec::new(),
            flat_meta: Vec::new(),
            emitter_meshes: Vec::new(),
            corners: Ghost(Seq::empty()),
        };
        assert(builder@ =~= empty_flat());
        builder.flatten_scene(math, scene);
        builder
    }

    fn flatten_scene<M: SceneMath>(&mut self, math: &M, scene: &Scene)
        requires
            is_flattenable(*scene),
            old(self)@ == empty_flat(),
        ensures
            is_sound(final(self)@),
            knows_materials(final(self)@, scene.materials@.len()),
            final(self)@.corners.len() < u32::MAX,
            forall|rules: SceneRules| #[trigger]
                rules.describe(*math) ==> final(self)@ == flattened(rules, *scene),
    {
        let mut map: HashMap<u128, usize> = HashMap::new();
        let mut stack: Vec<(usize, Transform)> = Vec::new();
        let ghost mut pending: Seq<Pending> = Seq::empty();
        let ghost fuel = scene.nodes@.len();
        let mut i: usize = 0;
        while i < scene.roots.len()
            invariant
                i <= scene.roots.len(),
                is_flattenable(*scene),
                fuel == scene.nodes@.len(),
                is_stack_of(stack@, pending),
                is_pending(*scene, pending),
                pending_load(*scene, pending) == roots_load(*scene, i as nat),
                forall|rules: SceneRules| #[trigger]
                    rules.describe(*math) ==> pending_visits(rules, *scene, pending) == roots_visits(
                        rules,
                        *scene,
                        i as nat,
                    ),
            decreases scene.roots.len() - i,
        {
            let root: u32 = scene.roots[i];
            stack.push((root as usize, Transform::identity()));
            proof {
                let p = Pending { node: root as int, parent: Transform::identity(), fuel };
                lemma_pending_push(arbitrary(), *scene, pending, p);
                assert forall|rules: SceneRules| #[trigger] rules.describe(*math) implies pending_visits(
                    rules,
                    *scene,
                    pending.push(p),
                ) == roots_visits(rules, *scene, (i + 1) as nat) by {
                    lemma_pending_push(rules, *scene, pending, p);
                }
                assert(is_branch(*scene, scene.roots@[i as int] as int, fuel));
                pending = pending.push(p);
            }
            i = i + 1;
        }
        let ghost total = roots_load(*scene, scene.roots@.len());
        assert(pending_load(*scene, pending) == total);
        while stack.len() > 0
            invariant
                is_flattenable(*scene),
                total == roots_load(*scene, scene.roots@.len()),
                is_stack_of(stack@, pending),
                is_pending(*scene, pending),
                is_sound(self@),
                knows_materials(self@, scene.materials@.len()),
                is_index(map@, self@.corners),
                self@.corners.len() + pending_load(*scene, pending).corners <= total.corners,
                self@.emitters.len() + pending_load(*scene, pending).meshes <= total.meshes,
                forall|rules: SceneRules| #[trigger]
                    rules.describe(*math) ==> with_visits(
                        rules,
                        *scene,
                        self@,
                        pending_visits(rules, *scene, pending),
                    ) == flattened(rules, *scene),
            decreases pending_load(*scene, pending).visits,
        {
            let ghost flat0 = self@;
            let ghost whole = pending;
            let (node_idx, parent) = stack.pop().unwrap();
            let ghost p = pending.last();
            let ghost rest = pending.drop_last();
            proof {
                assert(whole[whole.len() - 1] == p);
                assert(is_branch(*scene, p.node, p.fuel));
                pending = rest;
                assert forall|j: int| 0 <= j < rest.len() implies is_branch(
                    *scene,
                    (#[trigger] rest[j]).node,
                    rest[j].fuel,
                ) by {
                    assert(whole[j] == rest[j]);
                }
            }
            let node = &scene.nodes[node_idx];
            let world = math.compose(&parent, &node.transform);
            self.add_node(math, scene, &mut map, node_idx, &world);
            let ghost flat1 = self@;
            let mut k: usize = 0;
            while k < node.children.len()
                invariant
                    k <= node.children.len(),
                    p.node == node_idx,
                    *node == scene.nodes@[node_idx as int],
                    p.fuel > 0,
                    is_branch(*scene, p.node, p.fuel),
                    is_stack_of(stack@, pending),
                    is_pending(*scene, pending),
                    pending_load(*scene, pending) == pending_load(*scene, rest).plus(
                        children_load(*scene, p.node, (p.fuel - 1) as nat, k as nat),
                    ),
                    forall|rules: SceneRules| #[trigger]
                        rules.describe(*math) ==> pending_visits(rules, *scene, pending) == children_visits(
                            rules,
                            *scene,
                            p.node,
                            world,
                            (p.fuel - 1) as nat,
                            k as nat,
                        ) + pending_visits(rules, *scene, rest),
                decreases node.children.len() - k,
            {
                let child: u32 = node.children[k];
                stack.push((child as usize, world));
                proof {
                    assert(scene.nodes@[p.node].children@[k as int] == child);
                    let c = Pending { node: child as int, parent: world, fuel: (p.fuel - 1) as nat };
                    lemma_pending_push(arbitrary(), *scene, pending, c);
                    assert forall|rules: SceneRules| #[trigger] rules.describe(*math) implies pending_visits(
                        rules,
                        *scene,
                        pending.push(c),
                    ) == children_visits(rules, *scene, p.node, world, (p.fuel - 1) as nat, (k + 1) as nat)
                        + pending_visits(rules, *scene, rest) by {
                        lemma_pending_push(rules, *scene, pending, c);
                        let a = branch_visits(rules, *scene, c.node, c.parent, c.fuel);
                        let b = children_visits(rules, *scene, p.node, world, (p.fuel - 1) as nat, k as nat);
                        let d = pending_visits(rules, *scene, rest);
                        assert(a + (b + d) =~= (a + b) + d);
                    }
                    assert(is_branch(*scene, child as int, (p.fuel - 1) as nat));
                    pending = pending.push(c);
                }
                k = k + 1;
            }
            proof {
                lemma_meshes_load_prefix(*scene, p.node, node.meshes@.len(), node.meshes@.len());
                assert forall|rules: SceneRules| #[trigger] rules.describe(*math) implies with_visits(
                    rules,
                    *scene,
                    self@,
                    pending_visits(rules, *scene, pending),
                ) == flattened(rules, *scene) by {
                    let v = Visit { node: p.node, world };
                    let one = seq![v];
                    let more = pending_visits(rules, *scene, pending);
                    assert(one.drop_last() =~= Seq::<Visit>::empty());
                    reveal_with_fuel(with_visits, 2);
                    assert(with_visits(rules, *scene, flat0, one) == flat1);
                    lemma_with_visits_split(rules, *scene, flat0, one, more);
                    let kids = children_visits(
                        rules,
                        *scene,
                        p.node,
                        world,
                        (p.fuel - 1) as nat,
                        node.children@.len(),
                    );
                    let d = pending_visits(rules, *scene, rest);
                    assert(one + (kids + d) =~= (one + kids) + d);
                }
            }
        }
    }
}

impl BvhBuilder {
    /// Number of triangles.
    pub fn triangle_count(&self) -> (r: usize)
        ensures
            r == self@.meta.len(),
    {
        self.flat_meta.len()
    }

    /// Builds the tree over the flattened scene; the area lights come with it.
    pub fn build<M: Arith>(self, math: &M) -> (r: (Bvh, Vec<MeshEmitter>))
        requires
            is_sound(self@),
            self@.corners.len() < u32::MAX,
            self@.meta.len() <= MAX_TRIANGLES,
        ensures
            r.0.vertices@ == self@.vertices,
            r.0.normals@ == self@.normals,
            r.0.uvs@ == self@.uvs,
            r.0.colors@ == self@.colors,
            r.0.tangents@ == self@.tangents,
            r.0.triangle_meta@ == self@.meta,
            (AABB { min: r.0.bounds_min, max: r.0.bounds_max }) == box_around_points(self@.vertices),
            r.1@.map_values(|e: MeshEmitter| e@) == self@.emitters,
            r.0.accel.geometries().len() == 1,
            is_mesh_of(r.0.accel.geometries()[0], self@.vertices, self@.meta),
            r.0.accel.tree() is Some,
            is_buildable(r.0.accel.geometries()),
            is_built(r.0.accel.tree()->0, r.0.accel.geometries(), *math),
    {
        let flat = FlatScene {
            vertices: self.world_vertices,
            normals: self.world_normals,
            uvs: self.world_uvs,
            colors: self.world_colors,
            tangents: self.world_tangents,
            meta: self.flat_meta,
        };
        proof {
            assert forall|i: int| 0 <= i < self@.meta.len() implies (#[trigger] self@.meta[i]).v0
                < self@.vertices.len() && self@.meta[i].v1 < self@.vertices.len() && self@.meta[i].v2
                < self@.vertices.len() by {
                assert(has_vertices(self@.meta[i], self@.corners.len()));
            }
        }
        (build_bvh(math, flat), self.emitter_meshes)
    }
}

/// Whether a triangle names a material of the scene, accepts hits from behind
/// exactly if that material lets light through, and names as its light either
/// none or an area light of the material's color.
pub open spec fn is_described(scene: Scene, emitters: Seq<MeshEmitterView>, t: TriangleMeta) -> bool {
    &&& t.material < scene.materials@.len()
    &&& t.double_sided == scene.materials@[t.material as int].is_transmissive()
    &&& t.light == u32::MAX || {
        &&& scene.lights@.len() <= t.light < scene.lights@.len() + emitters.len()
        &&& emitters[t.light - scene.lights@.len()].emissive == scene.materials@[t.material as int].emissive
        &&& scene.materials@[t.material as int].is_emissive()
    }
}

spec fn all_described(scene: Scene, flat: Flat) -> bool {
    forall|i: int| 0 <= i < flat.meta.len() ==> is_described(scene, flat.emitters, #[trigger] flat.meta[i])
}

proof fn lemma_with_triangles_meta(
    rules: SceneRules,
    scene: Scene,
    flat: Flat,
    v: Visit,
    m: int,
    light: u32,
    n: nat,
)
    ensures
        ({
            let f = with_triangles(rules, scene, flat, v, m, light, n);
            &&& f.emitters == flat.emitters
            &&& f.meta.len() == flat.meta.len() + n
            &&& forall|i: int| 0 <= i < flat.meta.len() ==> #[trigger] f.meta[i] == flat.meta[i]
            &&& forall|i: int|
                flat.meta.len() <= i < f.meta.len() ==> (#[trigger] f.meta[i]).material == scene.meshes@[m].material
                    && f.meta[i].light == light && f.meta[i].double_sided == scene.materials@[scene.meshes@[m].material as int].is_transmissive()
        }),
    decreases n,
{
    if n > 0 {
        lemma_with_triangles_meta(rules, scene, flat, v, m, light, (n - 1) as nat);
    }
}

proof fn lemma_with_mesh_described(rules: SceneRules, scene: Scene, flat: Flat, v: Visit, m: int)
    requires
        all_described(scene, flat),
        is_mesh(scene, m),
        scene.lights@.len() + flat.emitters.len() < u32::MAX,
    ensures
        all_described(scene, with_mesh(rules, scene, flat, v, m)),
        with_mesh(rules, scene, flat, v, m).emitters.len() <= flat.emitters.len() + 1,
{
    let n = scene.meshes@[m].triangles@.len();
    let f = with_mesh(rules, scene, flat, v, m);
    match emitter_at(rules, scene, v, m) {
        Some(e) => {
            let light = (scene.lights@.len() + flat.emitters.len()) as u32;
            lemma_with_triangles_meta(rules, scene, flat, v, m, light, n);
            assert forall|i: int| 0 <= i < f.meta.len() implies is_described(
                scene,
                f.emitters,
                #[trigger] f.meta[i],
            ) by {
                if i < flat.meta.len() {
                    assert(is_described(scene, flat.emitters, flat.meta[i]));
                }
            }
        },
        None => {
            lemma_with_triangles_meta(rules, scene, flat, v, m, u32::MAX, n);
            assert forall|i: int| 0 <= i < f.meta.len() implies is_described(
                scene,
                f.emitters,
                #[trigger] f.meta[i],
            ) by {
                if i < flat.meta.len() {
                    assert(is_described(scene, flat.emitters, flat.meta[i]));
                }
            }
        },
    }
}

proof fn lemma_with_meshes_described(rules: SceneRules, scene: Scene, flat: Flat, v: Visit, n: nat)
    requires
        all_described(scene, flat),
        forall|k: int|
            0 <= k < scene.nodes@[v.node].meshes@.len() ==> is_mesh(
                scene,
                #[trigger] scene.nodes@[v.node].meshes@[k] as int,
            ),
        n <= scene.nodes@[v.node].meshes@.len(),
        scene.lights@.len() + flat.emitters.len() + n <= u32::MAX,
    ensures
        all_described(scene, with_meshes(rules, scene, flat, v, n)),
        with_meshes(rules, scene, flat, v, n).emitters.len() <= flat.emitters.len() + n,
    decreases n,
{
    if n > 0 {
        lemma_with_meshes_described(rules, scene, flat, v, (n - 1) as nat);
        let m = scene.nodes@[v.node].meshes@[n - 1] as int;
        lemma_with_mesh_described(rules, scene, with_meshes(rules, scene, flat, v, (n - 1) as nat), v, m);
    }
}

proof fn lemma_meshes_counted(scene: Scene, i: int, n: nat)
    ensures
        meshes_load(scene, i, n).meshes == n,
    decreases n,
{
    if n > 0 {
        lemma_meshes_counted(scene, i, (n - 1) as nat);
    }
}

proof fn lemma_branch_described(
    rules: SceneRules,
    scene: Scene,
    flat: Flat,
    i: int,
    parent: Transform,
    fuel: nat,
)
    requires
        all_described(scene, flat),
        is_branch(scene, i, fuel),
        scene.lights@.len() + flat.emitters.len() + branch_load(scene, i, fuel).meshes <= u32::MAX,
    ensures
        ({
            let f = with_visits(rules, scene, flat, branch_visits(rules, scene, i, parent, fuel));
            all_described(scene, f) && f.emitters.len() <= flat.emitters.len() + branch_load(
                scene,
                i,
                fuel,
            ).meshes
        }),
    decreases fuel, 0nat,
{
    let world = (rules.compose)(parent, scene.nodes@[i].transform);
    let v = Visit { node: i, world };
    let one = seq![v];
    let n = scene.nodes@[i].meshes@.len();
    let kids = scene.nodes@[i].children@.len();
    lemma_meshes_counted(scene, i, n);
    lemma_with_meshes_described(rules, scene, flat, v, n);
    assert(one.drop_last() =~= Seq::<Visit>::empty());
    reveal_with_fuel(with_visits, 2);
    let f = with_visits(rules, scene, flat, one);
    assert(f == with_meshes(rules, scene, flat, v, n));
    lemma_with_visits_split(
        rules,
        scene,
        flat,
        one,
        children_visits(rules, scene, i, world, (fuel - 1) as nat, kids),
    );
    lemma_children_described(rules, scene, f, i, world, (fuel - 1) as nat, kids);
}

proof fn lemma_children_described(
    rules: SceneRules,
    scene: Scene,
    flat: Flat,
    i: int,
    world: Transform,
    fuel: nat,
    n: nat,
)
    requires
        all_described(scene, flat),
        is_branch(scene, i, fuel + 1),
        n <= scene.nodes@[i].children@.len(),
        scene.lights@.len() + flat.emitters.len() + children_load(scene, i, fuel, n).meshes <= u32::MAX,
    ensures
        ({
            let f = with_visits(rules, scene, flat, children_visits(rules, scene, i, world, fuel, n));
            all_described(scene, f) && f.emitters.len() <= flat.emitters.len() + children_load(
                scene,
                i,
                fuel,
                n,
            ).meshes
        }),
    decreases fuel, n + 1,
{
    if n > 0 {
        let c = scene.nodes@[i].children@[n - 1];
        let a = branch_visits(rules, scene, c as int, world, fuel);
        let b = children_visits(rules, scene, i, world, fuel, (n - 1) as nat);
        lemma_branch_described(rules, scene, flat, c as int, world, fuel);
        lemma_children_described(
            rules,
            scene,
            with_visits(rules, scene, flat, a),
            i,
            world,
            fuel,
            (n - 1) as nat,
        );
        lemma_with_visits_split(rules, scene, flat, a, b);
    }
}

proof fn lemma_roots_described(rules: SceneRules, scene: Scene, flat: Flat, n: nat)
    requires
        all_described(scene, flat),
        is_flattenable(scene),
        n <= scene.roots@.len(),
        scene.lights@.len() + flat.emitters.len() + roots_load(scene, n).meshes <= u32::MAX,
    ensures
        all_described(scene, with_visits(rules, scene, flat, roots_visits(rules, scene, n))),
    decreases n,
{
    if n > 0 {
        let root = scene.roots@[n - 1];
        let a = branch_visits(rules, scene, root as int, Transform::identity(), scene.nodes@.len());
        let b = roots_visits(rules, scene, (n - 1) as nat);
        lemma_branch_described(rules, scene, flat, root as int, Transform::identity(), scene.nodes@.len());
        lemma_roots_described(rules, scene, with_visits(rules, scene, flat, a), (n - 1) as nat);
        lemma_with_visits_split(rules, scene, flat, a, b);
    }
}

/// Every triangle of a flattened scene names a material of the scene. Its light
/// is none, or an area light with the color of that material, which gives light.
pub proof fn law_triangles_are_described(rules: SceneRules, scene: Scene, i: int)
    requires
        is_flattenable(scene),
        0 <= i < flattened(rules, scene).meta.len(),
    ensures
        is_described(scene, flattened(rules, scene).emitters, flattened(rules, scene).meta[i]),
{
    lemma_roots_described(rules, scene, empty_flat(), scene.roots@.len());
}

/// Corners and meshes, counted.
#[derive(Clone, Copy, PartialEq, Eq, Structural, Debug)]
struct Counted {
    corners: u64,
    meshes: u64,
}

impl Counted {
    spec fn counts(self, load: Load) -> bool {
        self.corners == load.corners && self.meshes == load.meshes
    }
}

/// Whether loads can be counted in 32 bits.
spec fn is_small(load: Load) -> bool {
    load.corners < u32::MAX && load.meshes < u32::MAX
}

/// Whether a corner of a mesh is there.
fn check_corner(mesh: &Mesh, local: u32) -> (r: bool)
    ensures
        r == has_corner(*mesh, local),
{
    let l: usize = local as usize;
    l < mesh.vertices.len() && l < mesh.normals.len() && (mesh.uvs.len() == 0 || l < mesh.uvs.len()) && (
    mesh.colors.len() == 0 || l < mesh.colors.len()) && (mesh.tangents.len() == 0 || l < mesh.tangents.len())
}

/// Whether a mesh is there with all it names.
fn check_mesh(scene: &Scene, m: u32) -> (r: bool)
    ensures
        r == is_mesh(*scene, m as int),
{
    if m as usize >= scene.meshes.len() {
        return false;
    }
    let mesh = &scene.meshes[m as usize];
    if mesh.material as usize >= scene.materials.len() {
        return false;
    }
    let mut j: usize = 0;
    while j < mesh.triangles.len()
        invariant
            j <= mesh.triangles.len(),
            m < scene.meshes@.len(),
            *mesh == scene.meshes@[m as int],
            forall|i: int|
                0 <= i < j ==> {
                    let t = #[trigger] mesh.triangles@[i];
                    has_corner(*mesh, t.v0) && has_corner(*mesh, t.v1) && has_corner(*mesh, t.v2)
                },
        decreases mesh.triangles.len() - j,
    {
        let t = mesh.triangles[j];
        if !(check_corner(mesh, t.v0) && check_corner(mesh, t.v1) && check_corner(mesh, t.v2)) {
            assert(scene.meshes@[m as int].triangles@[j as int] == t);
            return false;
        }
        j = j + 1;
    }
    true
}

/// Counts what the meshes of a node amount to, if they are there and few enough.
fn count_meshes(scene: &Scene, i: usize) -> (r: Option<Counted>)
    requires
        i < scene.nodes@.len(),
    ensures
        ({
            let n = scene.nodes@[i as int].meshes@.len();
            let all = forall|k: int|
                0 <= k < n ==> is_mesh(*scene, #[trigger] scene.nodes@[i as int].meshes@[k] as int);
            match r {
                Some(c) => all && c.counts(meshes_load(*scene, i as int, n)) && is_small(
                    meshes_load(*scene, i as int, n),
                ),
                None => !(all && is_small(meshes_load(*scene, i as int, n))),
            }
        }),
{
    let node = &scene.nodes[i];
    let mut c = Counted { corners: 0, meshes: 0 };
    let mut k: usize = 0;
    while k < node.meshes.len()
        invariant
            k <= node.meshes.len(),
            i < scene.nodes@.len(),
            *node == scene.nodes@[i as int],
            c.counts(meshes_load(*scene, i as int, k as nat)),
            is_small(meshes_load(*scene, i as int, k as nat)),
            forall|j: int| 0 <= j < k ==> is_mesh(*scene, #[trigger] scene.nodes@[i as int].meshes@[j] as int),
        decreases node.meshes.len() - k,
    {
        let m: u32 = node.meshes[k];
        assert(scene.nodes@[i as int].meshes@[k as int] == m);
        proof {
            lemma_meshes_load_prefix(*scene, i as int, (k + 1) as nat, node.meshes@.len());
        }
        if !check_mesh(scene, m) {
            return None;
        }
        let n: usize = scene.meshes[m as usize].triangles.len();
        if n >= u32::MAX as usize {
            return None;
        }
        c = Counted { corners: c.corners + 3 * (n as u64), meshes: c.meshes + 1 };
        if c.corners >= u32::MAX as u64 || c.meshes >= u32::MAX as u64 {
            return None;
        }
        k = k + 1;
    }
    Some(c)
}

proof fn lemma_children_load_prefix(scene: Scene, i: int, fuel: nat, a: nat, b: nat)
    requires
        a <= b,
    ensures
        children_load(scene, i, fuel, a).corners <= children_load(scene, i, fuel, b).corners,
        children_load(scene, i, fuel, a).meshes <= children_load(scene, i, fuel, b).meshes,
    decreases b,
{
    if a < b {
        lemma_children_load_prefix(scene, i, fuel, a, (b - 1) as nat);
    }
}

/// Counts what a node and all under it amount to, if they are there, without
/// paths longer than `fuel` nodes, and few enough.
fn count_branch(scene: &Scene, i: usize, fuel: usize) -> (r: Option<Counted>)
    ensures
        match r {
            Some(c) => is_branch(*scene, i as int, fuel as nat) && c.counts(
                branch_load(*scene, i as int, fuel as nat),
            ) && is_small(branch_load(*scene, i as int, fuel as nat)),
            None => !(is_branch(*scene, i as int, fuel as nat) && is_small(
                branch_load(*scene, i as int, fuel as nat),
            )),
        },
    decreases fuel,
{
    if fuel == 0 || i >= scene.nodes.len() {
        return None;
    }
    let ghost f = (fuel - 1) as nat;
    let ghost all = scene.nodes@[i as int].children@.len();
    let mut c = match count_meshes(scene, i) {
        Some(c) => c,
        None => {
            return None;
        },
    };
    let ghost own = meshes_load(*scene, i as int, scene.nodes@[i as int].meshes@.len());
    let node = &scene.nodes[i];
    let mut k: usize = 0;
    while k < node.children.len()
        invariant
            k <= node.children.len(),
            fuel > 0,
            f == fuel - 1,
            i < scene.nodes@.len(),
            *node == scene.nodes@[i as int],
            all == node.children@.len(),
            own == meshes_load(*scene, i as int, scene.nodes@[i as int].meshes@.len()),
            forall|j: int|
                0 <= j < scene.nodes@[i as int].meshes@.len() ==> is_mesh(
                    *scene,
                    #[trigger] scene.nodes@[i as int].meshes@[j] as int,
                ),
            c.counts(own.plus(children_load(*scene, i as int, f, k as nat))),
            is_small(own.plus(children_load(*scene, i as int, f, k as nat))),
            forall|j: int|
                #![trigger scene.nodes@[i as int].children@[j]]
                0 <= j < k ==> is_branch(*scene, scene.nodes@[i as int].children@[j] as int, f),
        decreases node.children.len() - k,
    {
        let child: u32 = node.children[k];
        assert(scene.nodes@[i as int].children@[k as int] == child);
        proof {
            lemma_children_load_prefix(*scene, i as int, f, (k + 1) as nat, all);
        }
        match count_branch(scene, child as usize, fuel - 1) {
            Some(d) => {
                c = Counted { corners: c.corners + d.corners, meshes: c.meshes + d.meshes };
                if c.corners >= u32::MAX as u64 || c.meshes >= u32::MAX as u64 {
                    return None;
                }
            },
            None => {
                return None;
            },
        }
        k = k + 1;
    }
    Some(c)
}

proof fn lemma_roots_load_prefix(scene: Scene, a: nat, b: nat)
    requires
        a <= b,
    ensures
        roots_load(scene, a).corners <= roots_load(scene, b).corners,
        roots_load(scene, a).meshes <= roots_load(scene, b).meshes,
    decreases b,
{
    if a < b {
        lemma_roots_load_prefix(scene, a, (b - 1) as nat);
    }
}

/// Whether a scene can be flattened.
pub fn check_flattenable(scene: &Scene) -> (r: bool)
    ensures
        r == is_flattenable(*scene),
{
    let fuel: usize = scene.nodes.len();
    let mut c = Counted { corners: 0, meshes: 0 };
    let mut k: usize = 0;
    while k < scene.roots.len()
        invariant
            k <= scene.roots.len(),
            fuel == scene.nodes@.len(),
            c.counts(roots_load(*scene, k as nat)),
            is_small(roots_load(*scene, k as nat)),
            forall|j: int| 0 <= j < k ==> is_branch(*scene, #[trigger] scene.roots@[j] as int, fuel as nat),
        decreases scene.roots.len() - k,
    {
        let root: u32 = scene.roots[k];
        assert(scene.roots@[k as int] == root);
        proof {
            lemma_roots_load_prefix(*scene, (k + 1) as nat, scene.roots@.len());
        }
        match count_branch(scene, root as usize, fuel) {
            Some(d) => {
                c = Counted { corners: c.corners + d.corners, meshes: c.meshes + d.meshes };
                if c.corners >= u32::MAX as u64 || c.meshes >= u32::MAX as u64 {
                    return false;
                }
            },
            None => {
                return false;
            },
        }
        k = k + 1;
    }
    let lights: usize = scene.lights.len();
    lights < u32::MAX as usize && (lights as u64) + c.meshes < u32::MAX as u64
}

/// Whether a transform moves and stretches, but has no perspective.
pub open spec fn is_affine(t: Transform) -> bool {
    bottom_row(&t) == Point3::origin() && t.w.w == Scalar::one()
}

/// Points move by the linear part and the translation of a transform, directions by
/// the linear part alone, wherever there is no perspective.
pub proof fn law_points_move_and_directions_turn(rules: SceneRules, t: Transform, p: Point3)
    requires
        is_affine(t),
        rules.arith.keeps_ones(),
        rules.arith.keeps_zeros(),
        p.is_finite(),
        rules.arith.plus((rules.linear)(t, p), translation(&t)).ordered(),
    ensures
        rules.point(t, p) == rules.arith.plus((rules.linear)(t, p), Point3 { x: t.w.x, y: t.w.y, z: t.w.z }),
        rules.vector(t, p) == (rules.linear)(t, p),
{
    let o = Scalar::zero();
    assert(rules.arith.dot(Point3::origin(), p) == o) by {
        assert(rules.arith.product(o, p.x) == o && rules.arith.product(o, p.y) == o && rules.arith.product(o, p.z) == o);
        assert(rules.arith.sum(o, o) == o);
    }
    assert(rules.arith.sum(o, Scalar::one()) == Scalar::one());
}

/// With perspective, a moved point times its last coordinate is where the transform
/// puts it, wherever dividing can be undone.
pub proof fn law_perspective_divides(rules: SceneRules, t: Transform, p: Point3)
    requires
        ({
            let n = rules.arith.sum(rules.arith.dot(bottom_row(&t), p), t.w.w);
            let q = rules.arith.plus((rules.linear)(t, p), translation(&t));
            !n.is_zero() && rules.arith.scaled(rules.arith.shrunk(q, n), n) == q
        }),
    ensures
        rules.arith.scaled(
            rules.point(t, p),
            rules.arith.sum(rules.arith.dot(bottom_row(&t), p), t.w.w),
        ) == rules.arith.plus((rules.linear)(t, p), translation(&t)),
{
}

/// Normals move by the transposed inverse: each coordinate of a moved normal is made
/// with a column of the inverse, and where a transform has no inverse the normal
/// stays; moved normals are made unit length.
pub proof fn law_normals_move_by_the_inverse(rules: SceneRules, t: Transform, n: Point3)
    requires
        rules.arith.keeps_ones(),
        rules.arith.keeps_zeros(),
        n.is_finite(),
    ensures
        (rules.inverse)(t) is None ==> rules.normal(t, n) == rules.arith.unit(n),
        (rules.inverse)(t) == Some(Axes::identity()) ==> rules.normal(t, n) == rules.arith.unit(n),
        (rules.inverse)(t) matches Some(m) ==> rules.normal(t, n) == rules.arith.unit(
            Point3 { x: rules.arith.dot(m.x, n), y: rules.arith.dot(m.y, n), z: rules.arith.dot(m.z, n) },
        ),
{
    let m = Axes::identity();
    let o = Scalar::zero();
    assert(rules.arith.product(o, n.x) == o && rules.arith.product(o, n.y) == o && rules.arith.product(o, n.z) == o);
    assert(m.x.x == Scalar::one() && m.y.y == Scalar::one() && m.z.z == Scalar::one());
    assert(rules.arith.product(Scalar::one(), n.x) == n.x);
    assert(rules.arith.product(Scalar::one(), n.y) == n.y);
    assert(rules.arith.product(Scalar::one(), n.z) == n.z);
    assert(rules.arith.sum(n.x, o) == n.x && rules.arith.sum(n.y, o) == n.y);
    assert(rules.arith.sum(o, n.y) == n.y && rules.arith.sum(o, n.z) == n.z && rules.arith.sum(o, o) == o);
    assert(rules.arith.dot(m.x, n) == n.x);
    assert(rules.arith.dot(m.y, n) == n.y);
    assert(rules.arith.dot(m.z, n) == n.z);
}

/// A normal stays across its surface: against a moved direction of the surface it is
/// what it was against the direction before, wherever the inverse undoes the linear
/// part in scalar products.
pub proof fn law_normals_stay_across(rules: SceneRules, t: Transform, m: Axes, n: Point3, v: Point3)
    requires
        (rules.inverse)(t) == Some(m),
        ({
            let moved = Point3 { x: rules.arith.dot(m.x, n), y: rules.arith.dot(m.y, n), z: rules.arith.dot(m.z, n) };
            let length = rules.arith.norm(moved);
            &&& rules.arith.dot(moved, (rules.linear)(t, v)) == rules.arith.dot(n, v)
            &&& rules.arith.scaled(rules.arith.shrunk(moved, length), length) == moved
        }),
    ensures
        exists|length: Scalar|
            rules.arith.dot(#[trigger] rules.arith.scaled(rules.normal(t, n), length), (rules.linear)(t, v))
                == rules.arith.dot(n, v),
{
    let moved = Point3 { x: rules.arith.dot(m.x, n), y: rules.arith.dot(m.y, n), z: rules.arith.dot(m.z, n) };
    assert(rules.arith.scaled(rules.normal(t, n), rules.arith.norm(moved)) == moved);
}

/// Tangents move as directions do, and are made unit length.
pub proof fn law_tangents_move_as_directions(rules: SceneRules, t: Transform, v: Vec4)
    ensures
        ({
            let r = rules.tangent(t, v);
            (Point3 { x: r.x, y: r.y, z: r.z }) == rules.arith.unit(
                (rules.linear)(t, Point3 { x: v.x, y: v.y, z: v.z }),
            )
        }),
{
}

/// A node stands where its parents put it: its place in the world is its own within
/// that of its parent, and roots stand in the world itself.
pub proof fn law_children_stand_in_their_parents(rules: SceneRules, scene: Scene, i: int, parent: Transform, fuel: nat)
    requires
        fuel > 1,
    ensures
        ({
            let visits = branch_visits(rules, scene, i, parent, fuel);
            let world = (rules.compose)(parent, scene.nodes@[i].transform);
            &&& visits.len() > 0
            &&& visits[0].node == i
            &&& visits[0].world == world
            &&& scene.nodes@[i].children@.len() > 0 ==> {
                let child = scene.nodes@[i].children@.last() as int;
                &&& visits.len() > 1
                &&& visits[1].node == child
                &&& visits[1].world == (rules.compose)(world, scene.nodes@[child].transform)
            }
        }),
        scene.roots@.len() == 1 && scene.nodes@.len() > 0 ==> roots_visits(rules, scene, 1) == branch_visits(
            rules,
            scene,
            scene.roots@[0] as int,
            Transform::identity(),
            scene.nodes@.len(),
        ),
{
    reveal_with_fuel(branch_visits, 3);
    reveal_with_fuel(children_visits, 3);
    reveal_with_fuel(roots_visits, 3);
    if scene.roots@.len() == 1 && scene.nodes@.len() > 0 {
        let a = branch_visits(rules, scene, scene.roots@[0] as int, Transform::identity(), scene.nodes@.len());
        assert(a + Seq::<Visit>::empty() =~= a);
    }
}

/// A corner that is new becomes one vertex with what the mesh has there, moved into
/// the world: white without colors, at the origin of textures without coordinates. A
/// corner that is known adds nothing.
pub proof fn law_corner_becomes_a_vertex(rules: SceneRules, scene: Scene, flat: Flat, v: Visit, m: int, local: u32)
    ensures
        ({
            let mesh = scene.meshes@[m];
            let next = with_corner(rules, scene, flat, v, m, local);
            let known = flat.corners.contains(Corner { node: v.node, mesh: m, local: local as int });
            &&& known ==> next == flat
            &&& !known ==> {
                &&& next.vertices == flat.vertices.push(rules.point(v.world, mesh.vertices@[local as int]))
                &&& next.normals == flat.normals.push(rules.normal(v.world, mesh.normals@[local as int]))
                &&& next.uvs.len() == flat.uvs.len() + 1
                &&& mesh.uvs@.len() > 0 ==> next.uvs.last() == mesh.uvs@[local as int]
                &&& mesh.uvs@.len() == 0 ==> next.uvs.last() == Vec2::zero()
                &&& next.colors.len() == flat.colors.len() + 1
                &&& mesh.colors@.len() > 0 ==> next.colors.last() == mesh.colors@[local as int]
                &&& mesh.colors@.len() == 0 ==> next.colors.last() == white()
                &&& next.tangents.len() == flat.tangents.len() + 1
                &&& mesh.tangents@.len() > 0 ==> next.tangents.last() == rules.tangent(
                    v.world,
                    mesh.tangents@[local as int],
                )
                &&& mesh.tangents@.len() == 0 ==> next.tangents.last() == Vec4::zero()
                &&& next.meta == flat.meta
                &&& next.emitters == flat.emitters
            }
        }),
{
}

/// A triangle keeps its material, its light and the order of its corners, and is met
/// from behind exactly if light passes through its material.
pub proof fn law_triangle_keeps_its_corners(
    rules: SceneRules,
    scene: Scene,
    flat: Flat,
    v: Visit,
    m: int,
    light: u32,
    t: Triangle,
)
    ensures
        ({
            let mesh = scene.meshes@[m];
            let next = with_triangle(rules, scene, flat, v, m, light, t);
            let meta = next.meta.last();
            &&& next.meta.len() == flat.meta.len() + 1
            &&& next.meta.drop_last() == flat.meta
            &&& meta.material == mesh.material
            &&& meta.light == light
            &&& meta.v0 == vertex_of(next, v, m, t.v0)
            &&& meta.v1 == vertex_of(next, v, m, t.v1)
            &&& meta.v2 == vertex_of(next, v, m, t.v2)
            &&& meta.double_sided <==> Scalar::zero().lt(scene.materials@[mesh.material as int].transmission)
            &&& next.emitters == flat.emitters
        }),
{
    let next = with_triangle(rules, scene, flat, v, m, light, t);
    assert(next.meta.drop_last() =~= flat.meta);
}

/// A mesh that gives light is one area light, counted after the scene's own lights
/// and those before it; one that gives none has no light.
pub proof fn law_emissive_mesh_is_one_light(rules: SceneRules, scene: Scene, flat: Flat, v: Visit, m: int)
    requires
        scene.meshes@[m].triangles@.len() > 0,
        scene.lights@.len() + flat.emitters.len() < u32::MAX,
    ensures
        ({
            let next = with_mesh(rules, scene, flat, v, m);
            let material = scene.materials@[scene.meshes@[m].material as int];
            &&& !material.is_emissive() ==> next.emitters == flat.emitters && next.meta.last().light == u32::MAX
            &&& (emitter_at(rules, scene, v, m) matches Some(e) ==> next.emitters == flat.emitters.push(e)
                && next.meta.last().light == scene.lights@.len() + flat.emitters.len() && e.emissive == material.emissive
                && e.emissive_texture == material.emissive_texture)
        }),
{
    lemma_triangles_keep_emitters(rules, scene, flat, v, m, u32::MAX, scene.meshes@[m].triangles@.len());
    lemma_triangles_keep_emitters(
        rules,
        scene,
        flat,
        v,
        m,
        (scene.lights@.len() + flat.emitters.len()) as u32,
        scene.meshes@[m].triangles@.len(),
    );
}

proof fn lemma_triangles_keep_emitters(rules: SceneRules, scene: Scene, flat: Flat, v: Visit, m: int, light: u32, n: nat)
    ensures
        with_triangles(rules, scene, flat, v, m, light, n).emitters == flat.emitters,
        n > 0 ==> with_triangles(rules, scene, flat, v, m, light, n).meta.len() > 0 && with_triangles(
            rules,
            scene,
            flat,
            v,
            m,
            light,
            n,
        ).meta.last().light == light,
    decreases n,
{
    if n > 0 {
        lemma_triangles_keep_emitters(rules, scene, flat, v, m, light, (n - 1) as nat);
    }
}

/// A triangle that gives light has its corners in the world in order, with their
/// places in the texture, and faces where its corners run counterclockwise; one
/// without an area gives none.
pub proof fn law_light_giving_triangles_stand_in_the_world(rules: SceneRules, scene: Scene, v: Visit, m: int, n: nat)
    requires
        n > 0,
    ensures
        ({
            let mesh = scene.meshes@[m];
            let t = mesh.triangles@[n - 1];
            let before = emitter_tris(rules, scene, v, m, (n - 1) as nat);
            let after = emitter_tris(rules, scene, v, m, n);
            let a = rules.point(v.world, mesh.vertices@[t.v0 as int]);
            let b = rules.point(v.world, mesh.vertices@[t.v1 as int]);
            let c = rules.point(v.world, mesh.vertices@[t.v2 as int]);
            let across = rules.arith.cross(rules.arith.minus(b, a), rules.arith.minus(c, a));
            let length = rules.arith.norm(across);
            &&& !Scalar::zero().lt(length) ==> after == before
            &&& Scalar::zero().lt(length) ==> {
                let e = after.last();
                &&& after.len() == before.len() + 1
                &&& e.v0 == a && e.v1 == b && e.v2 == c
                &&& mesh.uvs@.len() > 0 ==> e.uv0 == mesh.uvs@[t.v0 as int] && e.uv1 == mesh.uvs@[t.v1 as int] && e.uv2
                    == mesh.uvs@[t.v2 as int]
                &&& e.normal == rules.arith.unit(across)
            }
        }),
{
}

/// With perspective, a moved direction is what the transform makes of the direction
/// over its last coordinate: stretched by it again, that direction is the one there
/// was, wherever dividing can be undone.
pub proof fn law_perspective_divides_directions(rules: SceneRules, t: Transform, v: Point3)
    requires
        ({
            let n = rules.arith.dot(bottom_row(&t), v);
            !n.is_zero() && rules.arith.scaled(rules.arith.shrunk(v, n), n) == v
        }),
    ensures
        exists|w: Point3|
            rules.vector(t, v) == #[trigger] (rules.linear)(t, w) && rules.arith.scaled(
                w,
                rules.arith.dot(bottom_row(&t), v),
            ) == v,
{
    let w = rules.arith.shrunk(v, rules.arith.dot(bottom_row(&t), v));
    assert(rules.vector(t, v) == (rules.linear)(t, w));
}

} // verus!
