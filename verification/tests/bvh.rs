//! A flattened scene and the tree over it, with the arithmetic of the machine.
use nalgebra::{Matrix3, Matrix4, Vector3, Vector4};
use rnpt::accel::bvh::Ray;
use rnpt::arith::Arith;
use rnpt::bvh::Bvh;
use rnpt::flatten::{check_flattenable, Axes, BvhBuilder, SceneMath};
use rnpt::light::Light;
use rnpt::scalar::{Point3, Scalar};
use rnpt::scene::{Material, Mesh, Node, Scene, Transform, Triangle, Vec2, Vec4};

fn s(x: f32) -> Scalar {
    Scalar::from_bits(x.to_bits())
}

fn f(x: Scalar) -> f32 {
    f32::from_bits(x.to_bits())
}

fn point(p: [f32; 3]) -> Point3 {
    Point3 { x: s(p[0]), y: s(p[1]), z: s(p[2]) }
}

fn coords(p: Point3) -> [f32; 3] {
    [f(p.x), f(p.y), f(p.z)]
}

/// Single-precision arithmetic of the machine.
struct Machine;

impl Arith for Machine {
    fn sum(&self, a: Scalar, b: Scalar) -> Scalar {
        s(f(a) + f(b))
    }

    fn difference(&self, a: Scalar, b: Scalar) -> Scalar {
        s(f(a) - f(b))
    }

    fn product(&self, a: Scalar, b: Scalar) -> Scalar {
        s(f(a) * f(b))
    }

    fn quotient(&self, a: Scalar, b: Scalar) -> Scalar {
        s(f(a) / f(b))
    }

    fn fused(&self, a: Scalar, b: Scalar, c: Scalar) -> Scalar {
        s(f(a).mul_add(f(b), f(c)))
    }

    fn root(&self, a: Scalar) -> Scalar {
        s(f(a).sqrt())
    }

    fn sine(&self, a: Scalar) -> Scalar {
        s(f(a).sin())
    }

    fn cosine(&self, a: Scalar) -> Scalar {
        s(f(a).cos())
    }

    fn slope(&self, a: Scalar) -> Scalar {
        s(f(a).tan())
    }

    fn arc_cosine(&self, a: Scalar) -> Scalar {
        s(f(a).acos())
    }

    fn arc_tangent(&self, y: Scalar, x: Scalar) -> Scalar {
        s(f(y).atan2(f(x)))
    }

    fn power(&self, a: Scalar, b: Scalar) -> Scalar {
        s(f(a).powf(f(b)))
    }

    fn whole_power(&self, a: Scalar, n: i32) -> Scalar {
        s(f(a).powi(n))
    }

    fn wrapped(&self, a: Scalar, b: Scalar) -> Scalar {
        s(f(a).rem_euclid(f(b)))
    }

    fn floor(&self, a: Scalar) -> Scalar {
        s(f(a).floor())
    }

    fn exponential(&self, a: Scalar) -> Scalar {
        s(f(a).exp())
    }

    fn logarithm(&self, a: Scalar) -> Scalar {
        s(f(a).ln())
    }

    fn of_count(&self, n: usize) -> Scalar {
        s(n as f32)
    }

    fn to_count(&self, a: Scalar) -> usize {
        f(a) as usize
    }

    fn of_index(&self, n: i32) -> Scalar {
        s(n as f32)
    }

    fn to_index(&self, a: Scalar) -> i32 {
        f(a) as i32
    }

    fn to_natural(&self, a: Scalar) -> u32 {
        f(a) as u32
    }

    fn inner(&self, a: &Vec<Scalar>, b: &Vec<Scalar>) -> Scalar {
        s(a.iter().zip(b).map(|(x, y)| f(*x) * f(*y)).sum())
    }
}

fn matrix(t: &Transform) -> Matrix4<f32> {
    let column = |v: Vec4| Vector4::new(f(v.x), f(v.y), f(v.z), f(v.w));
    Matrix4::from_columns(&[column(t.x), column(t.y), column(t.z), column(t.w)])
}

fn transform(m: &Matrix4<f32>) -> Transform {
    let column = |i: usize| Vec4 { x: s(m[(0, i)]), y: s(m[(1, i)]), z: s(m[(2, i)]), w: s(m[(3, i)]) };
    Transform { x: column(0), y: column(1), z: column(2), w: column(3) }
}

fn vector(p: Point3) -> Vector3<f32> {
    Vector3::new(f(p.x), f(p.y), f(p.z))
}

fn linear(t: &Transform) -> Matrix3<f32> {
    matrix(t).fixed_view::<3, 3>(0, 0).into()
}

impl SceneMath for Machine {
    fn compose(&self, parent: &Transform, local: &Transform) -> Transform {
        transform(&(matrix(parent) * matrix(local)))
    }

    fn linear(&self, t: &Transform, v: Point3) -> Point3 {
        let q = linear(t) * vector(v);
        point([q.x, q.y, q.z])
    }

    fn determinant(&self, t: &Transform) -> Scalar {
        s(linear(t).determinant())
    }

    fn inverse(&self, t: &Transform) -> Option<Axes> {
        let m = linear(t).try_inverse()?;
        let column = |i: usize| point([m[(0, i)], m[(1, i)], m[(2, i)]]);
        Some(Axes { x: column(0), y: column(1), z: column(2) })
    }
}

fn unit(p: [f32; 3]) -> Point3 {
    let v = Vector3::new(p[0], p[1], p[2]).normalize();
    point([v.x, v.y, v.z])
}

fn approx(a: f32, b: f32) -> bool {
    (a - b).abs() < 1e-4
}

fn mesh(verts: &[[f32; 3]], tris: &[[u32; 3]], material: u32) -> Mesh {
    Mesh {
        vertices: verts.iter().map(|v| point(*v)).collect(),
        normals: vec![point([0.0, 0.0, 1.0]); verts.len()],
        uvs: vec![Vec2::zero(); verts.len()],
        colors: vec![point([1.0, 1.0, 1.0]); verts.len()],
        tangents: vec![],
        triangles: tris.iter().map(|t| Triangle { v0: t[0], v1: t[1], v2: t[2] }).collect(),
        material,
    }
}

fn scene_of(meshes: Vec<Mesh>, materials: Vec<Material>) -> Scene {
    let all = (0..meshes.len() as u32).collect();
    Scene {
        meshes,
        materials,
        textures: vec![],
        lights: vec![],
        nodes: vec![Node { transform: Transform::identity(), children: vec![], meshes: all }],
        roots: vec![0],
        cameras: vec![],
    }
}

fn build(scene: &Scene) -> Bvh {
    assert!(check_flattenable(scene));
    BvhBuilder::new(&Machine, scene).build(&Machine).0
}

fn build_bvh(verts: &[[f32; 3]], tris: &[[u32; 3]], material: u32) -> Bvh {
    build(&scene_of(vec![mesh(verts, tris, material)], vec![Material::default(); (material + 1) as usize]))
}

fn build_scene(verts: &[[f32; 3]], tris: &[[u32; 3]]) -> Bvh {
    let mut material = Material::default();
    material.albedo = point([1.0, 1.0, 1.0]);
    material.emissive = point([0.0, 0.0, 0.0]);
    build(&scene_of(vec![mesh(verts, tris, 0)], vec![material]))
}

/// Brute-force closest hit over the triangle list.
fn brute_force_t(bvh: &Bvh, ray: &Ray) -> Option<f32> {
    let mut best: Option<f32> = None;
    for meta in &bvh.triangle_meta {
        let v0 = bvh.vertices[meta.v0 as usize];
        let v1 = bvh.vertices[meta.v1 as usize];
        let v2 = bvh.vertices[meta.v2 as usize];
        if let Some(h) = ray.intersect_triangle(&Machine, v0, v1, v2) {
            if best.map_or(true, |b| f(h.t) < b) {
                best = Some(f(h.t));
            }
        }
    }
    best
}

fn one_tri() -> Bvh {
    build_scene(&[[0.0, 0.0, 0.0], [1.0, 0.0, 0.0], [0.0, 1.0, 0.0]], &[[0, 1, 2]])
}

fn one_tri_of(material: u32) -> Bvh {
    build_bvh(&[[0.0, 0.0, 0.0], [1.0, 0.0, 0.0], [0.0, 1.0, 0.0]], &[[0, 1, 2]], material)
}

fn dir_neg_z() -> Point3 {
    unit([0.0, 0.0, -1.0])
}

fn ray_ref() -> Ray {
    Ray::new(point([0.25, 0.25, 1.0]), dir_neg_z())
}

#[test]
fn hit_basic() {
    let hit = one_tri().intersect(&Machine, &ray_ref()).expect("should hit");
    assert!(approx(f(hit.hit.t), 1.0), "t={}", f(hit.hit.t));
    assert!(approx(f(hit.hit.u), 0.25), "u={}", f(hit.hit.u));
    assert!(approx(f(hit.hit.v), 0.25), "v={}", f(hit.hit.v));
    assert_eq!(hit.material, 0);
}

#[test]
fn miss_outside() {
    let ray = Ray::new(point([0.9, 0.9, 1.0]), dir_neg_z());
    assert!(one_tri().intersect(&Machine, &ray).is_none());
}

#[test]
fn miss_behind() {
    let ray = Ray::new(
        point([0.25, 0.25, -1.0]),
        unit([0.0, 0.0, -1.0]),
    );
    assert!(one_tri().intersect(&Machine, &ray).is_none());
}

#[test]
fn backface_cull() {
    let ray = Ray::new(
        point([0.25, 0.25, -1.0]),
        unit([0.0, 0.0, 1.0]),
    );
    assert!(one_tri().intersect(&Machine, &ray).is_none(), "back face must be culled");
}

#[test]
fn tmin_clips() {
    let ray = Ray::new_with_minmax(point([0.25, 0.25, 1.0]), dir_neg_z(), s(2.0), s(f32::INFINITY));
    assert!(one_tri().intersect(&Machine, &ray).is_none());
}

#[test]
fn tmax_clips() {
    let ray = Ray::new_with_minmax(point([0.25, 0.25, 1.0]), dir_neg_z(), s(0.0), s(0.5));
    assert!(one_tri().intersect(&Machine, &ray).is_none());
}

#[test]
fn tmax_includes() {
    let ray = Ray::new_with_minmax(point([0.25, 0.25, 1.0]), dir_neg_z(), s(0.0), s(1.5));
    let hit = one_tri().intersect(&Machine, &ray).expect("should hit within tmax=1.5");
    assert!(approx(f(hit.hit.t), 1.0));
}

#[test]
fn self_intersection_guard() {
    let ray = Ray::new_with_minmax(
        point([0.25, 0.25, 0.0]),
        dir_neg_z(),
        s(1e-4),
        s(f32::INFINITY),
    );
    assert!(one_tri().intersect(&Machine, &ray).is_none(), "self-hit at t=0 must be clipped by tmin");
}

#[test]
fn closest_of_two() {
    let bvh = build_scene(
        &[
            [0.0, 0.0,  0.0], [1.0, 0.0,  0.0], [0.0, 1.0,  0.0],
            [0.0, 0.0, -2.0], [1.0, 0.0, -2.0], [0.0, 1.0, -2.0],
        ],
        &[[0, 1, 2], [3, 4, 5]],
    );
    let hit = bvh.intersect(&Machine, &ray_ref()).expect("should hit");
    assert!(approx(f(hit.hit.t), 1.0), "must return near hit (t=1.0), got t={}", f(hit.hit.t));
}

#[test]
fn barycentric_at_vertices() {
    let bvh = one_tri();
    let dir = dir_neg_z();

    let h0 = bvh.intersect(&Machine, &Ray::new(point([0.0, 0.0, 1.0]), dir)).expect("v0 hit");
    assert!(approx(f(h0.hit.u), 0.0) && approx(f(h0.hit.v), 0.0),
        "at v0: u={} v={}", f(h0.hit.u), f(h0.hit.v));

    let h1 = bvh.intersect(&Machine, &Ray::new(point([1.0, 0.0, 1.0]), dir)).expect("v1 hit");
    assert!(approx(f(h1.hit.u), 1.0) && approx(f(h1.hit.v), 0.0),
        "at v1: u={} v={}", f(h1.hit.u), f(h1.hit.v));

    let h2 = bvh.intersect(&Machine, &Ray::new(point([0.0, 1.0, 1.0]), dir)).expect("v2 hit");
    assert!(approx(f(h2.hit.u), 0.0) && approx(f(h2.hit.v), 1.0),
        "at v2: u={} v={}", f(h2.hit.u), f(h2.hit.v));
}

#[test]
fn occluded_true() {
    let ray = Ray::new_with_minmax(point([0.25, 0.25, 1.0]), dir_neg_z(), s(1e-4), s(10.0));
    assert!(one_tri().is_occluded(&Machine, &ray));
}

#[test]
fn occluded_miss() {
    let ray = Ray::new_with_minmax(point([0.9, 0.9, 1.0]), dir_neg_z(), s(1e-4), s(10.0));
    assert!(!one_tri().is_occluded(&Machine, &ray));
}

#[test]
fn occluded_tmax() {
    let ray = Ray::new_with_minmax(point([0.25, 0.25, 1.0]), dir_neg_z(), s(1e-4), s(0.5));
    assert!(!one_tri().is_occluded(&Machine, &ray));
}

#[test]
fn octant_directions() {
    let bvh_above = build_scene(
        &[
            [0.1,  0.1, 1.0], [0.9,  0.1, 1.0], [0.1,  0.9, 1.0],
            [-0.9, 0.1, 1.0], [-0.1, 0.1, 1.0], [-0.9, 0.9, 1.0],
            [-0.9,-0.9, 1.0], [-0.1,-0.9, 1.0], [-0.9,-0.1, 1.0],
            [0.1, -0.9, 1.0], [0.9, -0.9, 1.0], [0.1, -0.1, 1.0],
        ],
        &[[0,1,2], [3,4,5], [6,7,8], [9,10,11]],
    );

    for (cx, cy) in [(0.4f32, 0.4), (-0.5, 0.4), (-0.5, -0.5), (0.4, -0.5)] {
        let ray = Ray::new(
            point([cx, cy, 3.0]),
            unit([0.0, 0.0, -1.0]),
        );
        let hit = bvh_above
            .intersect(&Machine, &ray)
            .unwrap_or_else(|| panic!("expected hit for cx={cx} cy={cy} from above"));
        assert!(approx(f(hit.hit.t), 2.0), "expected t=2.0, got {}", f(hit.hit.t));
    }

    let bvh_below = build_scene(
        &[
            [0.1,  0.1, -1.0], [0.1,  0.9, -1.0], [0.9,  0.1, -1.0],
            [-0.9, 0.1, -1.0], [-0.9, 0.9, -1.0], [-0.1, 0.1, -1.0],
            [-0.9,-0.9, -1.0], [-0.9,-0.1, -1.0], [-0.1,-0.9, -1.0],
            [0.1, -0.9, -1.0], [0.1, -0.1, -1.0], [0.9, -0.9, -1.0],
        ],
        &[[0,1,2], [3,4,5], [6,7,8], [9,10,11]],
    );

    for (cx, cy) in [(0.4f32, 0.4), (-0.5, 0.4), (-0.5, -0.5), (0.4, -0.5)] {
        let ray = Ray::new(
            point([cx, cy, -3.0]),
            unit([0.0, 0.0, 1.0]),
        );
        let hit = bvh_below
            .intersect(&Machine, &ray)
            .unwrap_or_else(|| panic!("expected hit for cx={cx} cy={cy} from below"));
        assert!(approx(f(hit.hit.t), 2.0), "expected t=2.0, got {}", f(hit.hit.t));
    }
}

#[test]
fn large_scene_vs_brute_force() {
    let n = 9usize;
    let mut verts = Vec::new();
    let mut tris  = Vec::new();
    for r in 0..n {
        for c in 0..n {
            let x = c as f32 / (n - 1) as f32 * 2.0 - 1.0;
            let y = r as f32 / (n - 1) as f32 * 2.0 - 1.0;
            let z = (x * 2.3 + y * 1.7).sin() * 0.3;
            verts.push([x, y, z]);
        }
    }
    for r in 0..(n - 1) {
        for c in 0..(n - 1) {
            let i00 = (r * n + c) as u32;
            let i10 = ((r + 1) * n + c) as u32;
            let i01 = (r * n + c + 1) as u32;
            let i11 = ((r + 1) * n + c + 1) as u32;
            tris.push([i00, i10, i01]);
            tris.push([i10, i11, i01]);
        }
    }
    let bvh = build_scene(&verts, &tris);

    let ray_params: &[(f32, f32, f32, f32, f32, f32)] = &[
        ( 0.0,  0.0, 2.0,  0.0,  0.0, -1.0),
        ( 0.5,  0.5, 2.0,  0.0,  0.0, -1.0),
        (-0.5,  0.3, 2.0,  0.0,  0.0, -1.0),
        ( 0.3, -0.6, 2.0,  0.0,  0.0, -1.0),
        ( 0.0,  0.0, 2.0,  0.3,  0.2, -1.0),
        ( 0.0,  0.0, 2.0, -0.4,  0.1, -1.0),
        ( 0.0,  0.0, 2.0,  0.2, -0.3, -1.0),
        ( 0.0,  0.0, 2.0, -0.1, -0.4, -1.0),
    ];

    for &(ox, oy, oz, dx, dy, dz) in ray_params {
        let ray = Ray::new(
            point([ox, oy, oz]),
            unit([dx, dy, dz]),
        );
        let bvh_t   = bvh.intersect(&Machine, &ray).map(|h| f(h.hit.t));
        let brute_t = brute_force_t(&bvh, &ray);
        match (bvh_t, brute_t) {
            (Some(bt), Some(bf)) => {
                assert!(
                    approx(bt, bf),
                    "t mismatch for ray ({ox},{oy},{oz})→({dx},{dy},{dz}): bvh={bt} brute={bf}"
                );
            }
            (None, None) => {}
            _ => panic!(
                "hit/miss disagreement for ray ({ox},{oy},{oz})→({dx},{dy},{dz}): bvh={bvh_t:?} brute={brute_t:?}"
            ),
        }
    }
}

#[test]
fn empty_scene() {
    let bvh = build_scene(&[], &[]);
    let ray = Ray::new(
        point([0.25, 0.25, 1.0]),
        unit([0.0, 0.0, -1.0]),
    );
    assert!(bvh.intersect(&Machine, &ray).is_none(), "empty BVH must return None");
    assert!(!bvh.is_occluded(&Machine, &ray),        "empty BVH must not occlude");
}

#[test]
fn material_index_propagated() {
    let hit = one_tri_of(2).intersect(&Machine, &ray_ref()).expect("should hit");
    assert_eq!(hit.material, 2);
}

#[test]
fn non_emitter_light_is_sentinel() {
    // Non-emissive meshes must have hit.light == u32::MAX (no area light).
    let hit = one_tri_of(0).intersect(&Machine, &ray_ref()).expect("should hit");
    assert_eq!(hit.light, u32::MAX);
}

#[test]
fn vertex_indices_in_bounds() {
    let bvh = one_tri_of(0);
    let hit = bvh.intersect(&Machine, &ray_ref()).expect("should hit");
    let n = bvh.vertices.len() as u32;
    assert!(hit.v0 < n && hit.v1 < n && hit.v2 < n);
}

#[test]
fn scene_bounds_are_finite() {
    let bvh = one_tri_of(0);
    for v in coords(bvh.bounds_min).iter().chain(coords(bvh.bounds_max).iter()) {
        assert!(v.is_finite());
    }
}

fn emissive(color: [f32; 3]) -> Material {
    let mut m = Material::default();
    m.emissive = point(color);
    m
}

const TRI: [[f32; 3]; 3] = [[0.0, 0.0, 0.0], [1.0, 0.0, 0.0], [0.0, 1.0, 0.0]];

#[test]
fn every_triangle_is_described() {
    let far = [[0.0, 0.0, -1.0], [1.0, 0.0, -1.0], [0.0, 1.0, -1.0]];
    let scene = scene_of(
        vec![mesh(&TRI, &[[0, 1, 2]], 0), mesh(&far, &[[0, 1, 2]], 1)],
        vec![emissive([1.0, 0.0, 0.0]), Material::default()],
    );
    let (bvh, emitters) = BvhBuilder::new(&Machine, &scene).build(&Machine);
    assert_eq!(bvh.triangle_meta.len(), 2);
    assert_eq!(emitters.len(), 1);
    assert_eq!(f(emitters[0].total_area()), 0.5);
    let lit: Vec<u32> = bvh.triangle_meta.iter().map(|m| m.light).collect();
    assert!(lit.contains(&0) && lit.contains(&u32::MAX));
    for m in &bvh.triangle_meta {
        assert_eq!(m.light == 0, m.material == 0);
    }
}

#[test]
fn emitters_come_after_the_lights_of_the_scene() {
    let mut scene = scene_of(vec![mesh(&TRI, &[[0, 1, 2]], 0)], vec![emissive([0.0, 0.0, 2.0])]);
    scene.lights.push(Light::Point { position: point([0.0; 3]), color: point([1.0; 3]), intensity: s(1.0) });
    let bvh = build(&scene);
    assert_eq!(bvh.triangle_meta[0].light, 1);
}

#[test]
fn flat_emissive_triangle_gives_no_emitter() {
    let line = [[0.0, 0.0, 0.0], [1.0, 0.0, 0.0], [2.0, 0.0, 0.0]];
    let scene = scene_of(vec![mesh(&line, &[[0, 1, 2]], 0)], vec![emissive([1.0; 3])]);
    let (_, emitters) = BvhBuilder::new(&Machine, &scene).build(&Machine);
    assert!(emitters.is_empty());
}

#[test]
fn transforms_of_parents_apply() {
    let mut scene = scene_of(vec![mesh(&TRI, &[[0, 1, 2]], 0)], vec![Material::default()]);
    let mut up = Transform::identity();
    up.w = Vec4 { x: s(0.0), y: s(0.0), z: s(0.5), w: s(1.0) };
    let mut twice = Transform::identity();
    twice.x.x = s(2.0);
    twice.y.y = s(2.0);
    scene.nodes = vec![
        Node { transform: up, children: vec![1], meshes: vec![] },
        Node { transform: twice, children: vec![], meshes: vec![0] },
    ];
    let bvh = build(&scene);
    let hit = bvh.intersect(&Machine, &Ray::new(point([0.5, 1.0, 1.0]), dir_neg_z())).unwrap();
    assert_eq!(f(hit.hit.t), 0.5);
    assert_eq!(coords(bvh.bounds_max), [2.0, 2.0, 0.5]);
    assert_eq!(coords(bvh.bounds_min), [0.0, 0.0, 0.5]);
}

#[test]
fn normals_stay_across_their_surface() {
    let mut scene = scene_of(vec![mesh(&TRI, &[[0, 1, 2]], 0)], vec![Material::default()]);
    scene.meshes[0].normals = vec![unit([1.0, 1.0, 0.0]); 3];
    scene.nodes[0].transform.x.x = s(2.0);
    let bvh = build(&scene);
    let n = coords(bvh.normals[0]);
    let wanted = coords(unit([0.5, 1.0, 0.0]));
    assert!(approx(n[0], wanted[0]) && approx(n[1], wanted[1]) && approx(n[2], wanted[2]));
}

#[test]
fn mirrored_tangents_change_their_sign() {
    let mut scene = scene_of(vec![mesh(&TRI, &[[0, 1, 2]], 0)], vec![Material::default()]);
    scene.meshes[0].tangents = vec![Vec4 { x: s(1.0), y: s(0.0), z: s(0.0), w: s(1.0) }; 3];
    assert_eq!(f(build(&scene).tangents[0].w), 1.0);
    scene.nodes[0].transform.x.x = s(-1.0);
    let t = build(&scene).tangents[0];
    assert_eq!((f(t.x), f(t.w)), (-1.0, -1.0));
}

#[test]
fn normals_stay_where_nothing_can_be_undone() {
    let mut scene = scene_of(vec![mesh(&TRI, &[[0, 1, 2]], 0)], vec![Material::default()]);
    scene.nodes[0].transform.z.z = s(0.0);
    let plain = coords(scene.meshes[0].normals[0]);
    assert_eq!(coords(build(&scene).normals[0]), plain);
}

#[test]
fn points_are_divided_by_their_last_coordinate() {
    let mut scene = scene_of(vec![mesh(&TRI, &[[0, 1, 2]], 0)], vec![Material::default()]);
    let before = coords(build(&scene).vertices[1]);
    scene.nodes[0].transform.w.w = s(2.0);
    let after = coords(build(&scene).vertices[1]);
    assert_eq!(after, before.map(|x| x / 2.0));
    scene.nodes[0].transform.w.w = s(0.0);
    assert_eq!(coords(build(&scene).vertices[1]), before);
}

#[test]
fn glass_is_hit_from_behind() {
    let mut glass = Material::default();
    glass.transmission = s(1.0);
    let bvh = build(&scene_of(vec![mesh(&TRI, &[[0, 1, 2]], 0)], vec![glass]));
    assert!(bvh.triangle_meta[0].double_sided);
    assert!(bvh.intersect(&Machine, &Ray::new(point([0.25, 0.25, -1.0]), unit([0.0, 0.0, 1.0]))).is_some());
}

#[test]
fn broken_scenes_are_not_flattenable() {
    let good = scene_of(vec![mesh(&TRI, &[[0, 1, 2]], 0)], vec![Material::default()]);
    assert!(check_flattenable(&good));
    let no_material = scene_of(vec![mesh(&TRI, &[[0, 1, 2]], 1)], vec![Material::default()]);
    assert!(!check_flattenable(&no_material));
    let no_corner = scene_of(vec![mesh(&TRI, &[[0, 1, 3]], 0)], vec![Material::default()]);
    assert!(!check_flattenable(&no_corner));
    let mut no_root = scene_of(vec![mesh(&TRI, &[[0, 1, 2]], 0)], vec![Material::default()]);
    no_root.roots = vec![1];
    assert!(!check_flattenable(&no_root));
}

#[test]
fn a_hit_lies_inside_its_triangle() {
    let ray = ray_ref();
    let [a, b, c] = TRI;
    let hit = ray.intersect_triangle(&Machine, point(a), point(b), point(c)).unwrap();
    assert_eq!((f(hit.t), f(hit.u), f(hit.v)), (1.0, 0.25, 0.25));
    assert_eq!(coords(ray.at(&Machine, hit.t)), [0.25, 0.25, 0.0]);
    assert!(ray.intersect_triangle(&Machine, point(a), point(c), point(b)).is_none());
}
