//! Searches of the tree, with the arithmetic of the machine.
use rnpt::accel::builder::build;
use rnpt::accel::bvh::{BvhInner, Ray};
use rnpt::accel::geometry::{check_buildable, Geometry};
use rnpt::accel::node::{Bvh8Node, NO_CHILD};
use rnpt::accel::scene::{RayAccelerator, Scene};
use rnpt::arith::Arith;
use rnpt::scalar::{Point3, Scalar};

fn s(x: f32) -> Scalar {
    Scalar::from_bits(x.to_bits())
}

fn f(x: Scalar) -> f32 {
    f32::from_bits(x.to_bits())
}

fn point(p: [f32; 3]) -> Point3 {
    Point3 { x: s(p[0]), y: s(p[1]), z: s(p[2]) }
}

fn coords(p: Point3) -> [f32; 3] {
    [f(p.x), f(p.y), f(p.z)]
}

/// Single-precision arithmetic of the machine.
struct Machine;

impl Arith for Machine {
    fn sum(&self, a: Scalar, b: Scalar) -> Scalar {
        s(f(a) + f(b))
    }

    fn difference(&self, a: Scalar, b: Scalar) -> Scalar {
        s(f(a) - f(b))
    }

    fn product(&self, a: Scalar, b: Scalar) -> Scalar {
        s(f(a) * f(b))
    }

    fn quotient(&self, a: Scalar, b: Scalar) -> Scalar {
        s(f(a) / f(b))
    }

    fn fused(&self, a: Scalar, b: Scalar, c: Scalar) -> Scalar {
        s(f(a).mul_add(f(b), f(c)))
    }

    fn root(&self, a: Scalar) -> Scalar {
        s(f(a).sqrt())
    }

    fn sine(&self, a: Scalar) -> Scalar {
        s(f(a).sin())
    }

    fn cosine(&self, a: Scalar) -> Scalar {
        s(f(a).cos())
    }

    fn slope(&self, a: Scalar) -> Scalar {
        s(f(a).tan())
    }

    fn arc_cosine(&self, a: Scalar) -> Scalar {
        s(f(a).acos())
    }

    fn arc_tangent(&self, y: Scalar, x: Scalar) -> Scalar {
        s(f(y).atan2(f(x)))
    }

    fn power(&self, a: Scalar, b: Scalar) -> Scalar {
        s(f(a).powf(f(b)))
    }

    fn whole_power(&self, a: Scalar, n: i32) -> Scalar {
        s(f(a).powi(n))
    }

    fn wrapped(&self, a: Scalar, b: Scalar) -> Scalar {
        s(f(a).rem_euclid(f(b)))
    }

    fn floor(&self, a: Scalar) -> Scalar {
        s(f(a).floor())
    }

    fn exponential(&self, a: Scalar) -> Scalar {
        s(f(a).exp())
    }

    fn logarithm(&self, a: Scalar) -> Scalar {
        s(f(a).ln())
    }

    fn of_count(&self, n: usize) -> Scalar {
        s(n as f32)
    }

    fn to_count(&self, a: Scalar) -> usize {
        f(a) as usize
    }

    fn of_index(&self, n: i32) -> Scalar {
        s(n as f32)
    }

    fn to_index(&self, a: Scalar) -> i32 {
        f(a) as i32
    }

    fn to_natural(&self, a: Scalar) -> u32 {
        f(a) as u32
    }

    fn inner(&self, a: &Vec<Scalar>, b: &Vec<Scalar>) -> Scalar {
        s(a.iter().zip(b).map(|(x, y)| f(*x) * f(*y)).sum())
    }
}

fn minus(a: [f32; 3], b: [f32; 3]) -> [f32; 3] {
    [a[0] - b[0], a[1] - b[1], a[2] - b[2]]
}

fn cross(a: [f32; 3], b: [f32; 3]) -> [f32; 3] {
    [a[1] * b[2] - a[2] * b[1], a[2] * b[0] - a[0] * b[2], a[0] * b[1] - a[1] * b[0]]
}

fn dot(a: [f32; 3], b: [f32; 3]) -> f32 {
    a[0] * b[0] + a[1] * b[1] + a[2] * b[2]
}

fn unit(a: [f32; 3]) -> [f32; 3] {
    let len = dot(a, a).sqrt();
    [a[0] / len, a[1] / len, a[2] / len]
}

fn approx(a: f32, b: f32) -> bool {
    (a - b).abs() < 1e-4
}

fn mesh(verts: &[[f32; 3]], tris: &[[u32; 3]]) -> Geometry {
    let v: Vec<Point3> = verts.iter().map(|p| point(*p)).collect();
    Geometry::triangle_mesh(&v, &tris.to_vec())
}

fn build_scene(verts: &[[f32; 3]], tris: &[[u32; 3]]) -> Scene {
    let geoms = vec![mesh(verts, tris)];
    assert!(check_buildable(&geoms));
    let mut scene = Scene::new();
    for g in geoms {
        scene.attach_geometry(g);
    }
    scene.commit(&Machine);
    scene
}

fn ray(org: [f32; 3], dir: [f32; 3]) -> Ray {
    Ray::new(point(org), point(unit(dir)))
}

fn ray_minmax(org: [f32; 3], dir: [f32; 3], tmin: f32, tmax: f32) -> Ray {
    Ray::new_with_minmax(point(org), point(unit(dir)), s(tmin), s(tmax))
}

/// One triangle against one ray, front faces only, without any tree.
fn mt_hit(v0: [f32; 3], v1: [f32; 3], v2: [f32; 3], r: &Ray) -> Option<f32> {
    const EPS: f32 = 1e-7;
    let d = coords(r.dir);
    let e1 = minus(v1, v0);
    let e2 = minus(v2, v0);
    let h = cross(d, e2);
    let det = dot(e1, h);
    if det < EPS {
        return None;
    }
    let inv_det = 1.0 / det;
    let o = minus(coords(r.org), v0);
    let u = inv_det * dot(o, h);
    if u < 0.0 || u > 1.0 {
        return None;
    }
    let q = cross(o, e1);
    let v = inv_det * dot(d, q);
    if v < 0.0 || u + v > 1.0 {
        return None;
    }
    let t = inv_det * dot(e2, q);
    if t < f(r.tmin) || t > f(r.tmax) {
        return None;
    }
    Some(t)
}

fn brute_force_t(verts: &[[f32; 3]], tris: &[[u32; 3]], r: &Ray) -> Option<f32> {
    let mut best: Option<f32> = None;
    for &[i0, i1, i2] in tris {
        if let Some(t) = mt_hit(verts[i0 as usize], verts[i1 as usize], verts[i2 as usize], r) {
            if best.map_or(true, |b| t < b) {
                best = Some(t);
            }
        }
    }
    best
}

fn one_tri() -> Scene {
    build_scene(&[[0.0, 0.0, 0.0], [1.0, 0.0, 0.0], [0.0, 1.0, 0.0]], &[[0, 1, 2]])
}

fn ray_ref() -> Ray {
    ray([0.25, 0.25, 1.0], [0.0, 0.0, -1.0])
}

#[test]
fn bvh_hit_basic() {
    let hit = one_tri().closest_hit(&Machine, &ray_ref()).expect("should hit");
    assert!(approx(f(hit.t), 1.0), "t={}", f(hit.t));
    assert!(approx(f(hit.u), 0.25), "u={}", f(hit.u));
    assert!(approx(f(hit.v), 0.25), "v={}", f(hit.v));
    assert_eq!(hit.prim_id, 0);
    assert_eq!(hit.geom_id, 0);
}

#[test]
fn bvh_miss_outside() {
    let r = ray([0.9, 0.9, 1.0], [0.0, 0.0, -1.0]);
    assert!(one_tri().closest_hit(&Machine, &r).is_none());
}

#[test]
fn bvh_miss_behind() {
    let r = ray([0.25, 0.25, -1.0], [0.0, 0.0, -1.0]);
    assert!(one_tri().closest_hit(&Machine, &r).is_none());
}

#[test]
fn bvh_backface_cull() {
    let r = ray([0.25, 0.25, -1.0], [0.0, 0.0, 1.0]);
    assert!(one_tri().closest_hit(&Machine, &r).is_none(), "back face must be culled");
}

#[test]
fn bvh_tmin_clips() {
    let r = ray_minmax([0.25, 0.25, 1.0], [0.0, 0.0, -1.0], 2.0, f32::INFINITY);
    assert!(one_tri().closest_hit(&Machine, &r).is_none());
}

#[test]
fn bvh_tmax_clips() {
    let r = ray_minmax([0.25, 0.25, 1.0], [0.0, 0.0, -1.0], 0.0, 0.5);
    assert!(one_tri().closest_hit(&Machine, &r).is_none());
}

#[test]
fn bvh_tmax_includes() {
    let r = ray_minmax([0.25, 0.25, 1.0], [0.0, 0.0, -1.0], 0.0, 1.5);
    let hit = one_tri().closest_hit(&Machine, &r).expect("should hit within tmax=1.5");
    assert!(approx(f(hit.t), 1.0));
}

#[test]
fn bvh_self_intersection_guard() {
    let r = ray_minmax([0.25, 0.25, 0.0], [0.0, 0.0, -1.0], 1e-4, f32::INFINITY);
    assert!(one_tri().closest_hit(&Machine, &r).is_none(), "self-hit at t=0 must be clipped by tmin");
}

#[test]
fn bvh_closest_of_two() {
    let scene = build_scene(
        &[
            [0.0, 0.0,  0.0], [1.0, 0.0,  0.0], [0.0, 1.0,  0.0],
            [0.0, 0.0, -2.0], [1.0, 0.0, -2.0], [0.0, 1.0, -2.0],
        ],
        &[[0, 1, 2], [3, 4, 5]],
    );
    let hit = scene.closest_hit(&Machine, &ray_ref()).expect("should hit");
    assert!(approx(f(hit.t), 1.0), "must return near hit (t=1.0), got t={}", f(hit.t));
}

#[test]
fn bvh_barycentric_at_vertices() {
    let scene = one_tri();
    let dir = [0.0, 0.0, -1.0];

    let h0 = scene.closest_hit(&Machine, &ray([0.0, 0.0, 1.0], dir)).expect("v0 hit");
    assert!(approx(f(h0.u), 0.0) && approx(f(h0.v), 0.0), "at v0: u={} v={}", f(h0.u), f(h0.v));

    let h1 = scene.closest_hit(&Machine, &ray([1.0, 0.0, 1.0], dir)).expect("v1 hit");
    assert!(approx(f(h1.u), 1.0) && approx(f(h1.v), 0.0), "at v1: u={} v={}", f(h1.u), f(h1.v));

    let h2 = scene.closest_hit(&Machine, &ray([0.0, 1.0, 1.0], dir)).expect("v2 hit");
    assert!(approx(f(h2.u), 0.0) && approx(f(h2.v), 1.0), "at v2: u={} v={}", f(h2.u), f(h2.v));
}

#[test]
fn bvh_occluded_true() {
    let r = ray_minmax([0.25, 0.25, 1.0], [0.0, 0.0, -1.0], 1e-4, 10.0);
    assert!(one_tri().any_hit(&Machine, &r));
}

#[test]
fn bvh_occluded_miss() {
    let r = ray_minmax([0.9, 0.9, 1.0], [0.0, 0.0, -1.0], 1e-4, 10.0);
    assert!(!one_tri().any_hit(&Machine, &r));
}

#[test]
fn bvh_occluded_tmax() {
    let r = ray_minmax([0.25, 0.25, 1.0], [0.0, 0.0, -1.0], 1e-4, 0.5);
    assert!(!one_tri().any_hit(&Machine, &r));
}

#[test]
fn bvh_octant_directions() {
    let bvh_above = build_scene(
        &[
            [0.1,  0.1, 1.0], [0.9,  0.1, 1.0], [0.1,  0.9, 1.0],
            [-0.9, 0.1, 1.0], [-0.1, 0.1, 1.0], [-0.9, 0.9, 1.0],
            [-0.9,-0.9, 1.0], [-0.1,-0.9, 1.0], [-0.9,-0.1, 1.0],
            [0.1, -0.9, 1.0], [0.9, -0.9, 1.0], [0.1, -0.1, 1.0],
        ],
        &[[0,1,2], [3,4,5], [6,7,8], [9,10,11]],
    );

    for (cx, cy) in [(0.4f32, 0.4), (-0.5, 0.4), (-0.5, -0.5), (0.4, -0.5)] {
        let r = ray([cx, cy, 3.0], [0.0, 0.0, -1.0]);
        let hit = bvh_above
            .closest_hit(&Machine, &r)
            .unwrap_or_else(|| panic!("expected hit for cx={cx} cy={cy} from above"));
        assert!(approx(f(hit.t), 2.0), "expected t=2.0, got {}", f(hit.t));
    }

    let bvh_below = build_scene(
        &[
            [0.1,  0.1, -1.0], [0.1,  0.9, -1.0], [0.9,  0.1, -1.0],
            [-0.9, 0.1, -1.0], [-0.9, 0.9, -1.0], [-0.1, 0.1, -1.0],
            [-0.9,-0.9, -1.0], [-0.9,-0.1, -1.0], [-0.1,-0.9, -1.0],
            [0.1, -0.9, -1.0], [0.1, -0.1, -1.0], [0.9, -0.9, -1.0],
        ],
        &[[0,1,2], [3,4,5], [6,7,8], [9,10,11]],
    );

    for (cx, cy) in [(0.4f32, 0.4), (-0.5, 0.4), (-0.5, -0.5), (0.4, -0.5)] {
        let r = ray([cx, cy, -3.0], [0.0, 0.0, 1.0]);
        let hit = bvh_below
            .closest_hit(&Machine, &r)
            .unwrap_or_else(|| panic!("expected hit for cx={cx} cy={cy} from below"));
        assert!(approx(f(hit.t), 2.0), "expected t=2.0, got {}", f(hit.t));
    }
}

#[test]
fn bvh_large_scene_vs_brute_force() {
    let n = 9usize;
    let mut verts: Vec<[f32; 3]> = Vec::new();
    let mut tris:  Vec<[u32; 3]> = Vec::new();
    for r in 0..n {
        for c in 0..n {
            let x = c as f32 / (n - 1) as f32 * 2.0 - 1.0;
            let y = r as f32 / (n - 1) as f32 * 2.0 - 1.0;
            let z = (x * 2.3 + y * 1.7).sin() * 0.3;
            verts.push([x, y, z]);
        }
    }
    for r in 0..(n - 1) {
        for c in 0..(n - 1) {
            let i00 = (r * n + c) as u32;
            let i10 = ((r + 1) * n + c) as u32;
            let i01 = (r * n + c + 1) as u32;
            let i11 = ((r + 1) * n + c + 1) as u32;
            tris.push([i00, i10, i01]);
            tris.push([i10, i11, i01]);
        }
    }
    let scene = build_scene(&verts, &tris);

    let ray_params: &[([f32;3], [f32;3])] = &[
        ([0.0, 0.0, 2.0], [0.0, 0.0, -1.0]),
        ([0.5, 0.5, 2.0], [0.0, 0.0, -1.0]),
        ([-0.5, 0.3, 2.0], [0.0, 0.0, -1.0]),
        ([0.3, -0.6, 2.0], [0.0, 0.0, -1.0]),
        ([0.0, 0.0, 2.0], [0.3, 0.2, -1.0]),
        ([0.0, 0.0, 2.0], [-0.4, 0.1, -1.0]),
        ([0.0, 0.0, 2.0], [0.2, -0.3, -1.0]),
        ([0.0, 0.0, 2.0], [-0.1, -0.4, -1.0]),
    ];

    for &(org, dir) in ray_params {
        let r      = ray(org, dir);
        let bvh_t  = scene.closest_hit(&Machine, &r).map(|h| f(h.t));
        let brute_t = brute_force_t(&verts, &tris, &r);
        match (bvh_t, brute_t) {
            (Some(bt), Some(bf)) => {
                assert!(
                    approx(bt, bf),
                    "t mismatch for org={org:?} dir={dir:?}: bvh={bt} brute={bf}"
                );
            }
            (None, None) => {}
            _ => panic!(
                "hit/miss disagreement for org={org:?} dir={dir:?}: bvh={bvh_t:?} brute={brute_t:?}"
            ),
        }
    }
}

#[test]
fn bvh_empty_scene() {
    let scene = build_scene(&[], &[]);
    let r = ray([0.25, 0.25, 1.0], [0.0, 0.0, -1.0]);
    assert!(scene.closest_hit(&Machine, &r).is_none(), "empty scene must return None");
    assert!(!scene.any_hit(&Machine, &r), "empty scene must not occlude");
}

#[test]
fn prim_id_correct() {
    // Two triangles. The second one (prim_id=1) is closer to the ray origin.
    // prim_id must match the input tris[] index regardless of BVH ordering.
    let scene = build_scene(
        &[
            // tri 0 at z=-2 (far)
            [0.0, 0.0, -2.0], [1.0, 0.0, -2.0], [0.0, 1.0, -2.0],
            // tri 1 at z=0 (near)
            [0.0, 0.0,  0.0], [1.0, 0.0,  0.0], [0.0, 1.0,  0.0],
        ],
        &[[0, 1, 2], [3, 4, 5]],
    );
    let r = ray([0.25, 0.25, 1.0], [0.0, 0.0, -1.0]);
    let hit = scene.closest_hit(&Machine, &r).expect("should hit");
    assert_eq!(hit.prim_id, 1, "near triangle is prim_id=1, got {}", hit.prim_id);
}

/// A field of triangles, some facing away, that fills several levels of the tree.
fn field(n: usize) -> (Vec<[f32; 3]>, Vec<[u32; 3]>) {
    let mut verts = Vec::new();
    let mut tris = Vec::new();
    let mut x = 12345u32;
    let mut next = || {
        x = x.wrapping_mul(1664525).wrapping_add(1013904223);
        (x >> 8) as f32 / 16777216.0
    };
    for i in 0..n {
        let c = [next() * 10.0 - 5.0, next() * 10.0 - 5.0, next() * 10.0 - 5.0];
        for _ in 0..3 {
            verts.push([c[0] + next() - 0.5, c[1] + next() - 0.5, c[2] + next() - 0.5]);
        }
        let k = 3 * i as u32;
        tris.push([k, k + 1, k + 2]);
    }
    (verts, tris)
}

#[test]
fn nearest_hit_is_the_nearest_of_all() {
    let (verts, tris) = field(1500);
    let scene = build_scene(&verts, &tris);
    let mut hits = 0;
    for i in 0..200 {
        let a = i as f32 * 0.37;
        let b = i as f32 * 0.11;
        let dir = [a.cos() * b.cos(), b.sin(), a.sin() * b.cos()];
        let org = [-8.0 * dir[0], -8.0 * dir[1], -8.0 * dir[2]];
        let r = ray(org, dir);
        let found = scene.closest_hit(&Machine, &r);
        let brute = brute_force_t(&verts, &tris, &r);
        assert_eq!(found.is_some(), brute.is_some());
        assert_eq!(scene.any_hit(&Machine, &r), brute.is_some());
        if let (Some(h), Some(t)) = (found, brute) {
            assert!(approx(f(h.t), t));
            let [i0, i1, i2] = tris[h.prim_id as usize];
            let own = mt_hit(verts[i0 as usize], verts[i1 as usize], verts[i2 as usize], &r);
            assert!(approx(own.unwrap(), t));
            hits += 1;
        }
    }
    assert!(hits > 50);
}

fn chunks_under(inner: &BvhInner, reference: u32, out: &mut Vec<usize>) {
    if Bvh8Node::is_leaf(reference) {
        let start = Bvh8Node::leaf_start(reference) as usize;
        out.extend(start..start + Bvh8Node::leaf_count(reference) as usize);
        return;
    }
    for child in inner.nodes[reference as usize].children {
        if child != NO_CHILD {
            chunks_under(inner, child, out);
        }
    }
}

#[test]
fn coincident_triangles_are_not_lost() {
    let verts = [[0.0, 0.0, 0.0], [1.0, 0.0, 0.0], [0.0, 1.0, 0.0]];
    for n in [1016, 1024, 2048, 5000] {
        let tris = vec![[0, 1, 2]; n];
        let scene = build_scene(&verts, &tris);
        let r = ray([0.25, 0.25, 1.0], [0.0, 0.0, -1.0]);
        let hit = scene.closest_hit(&Machine, &r).unwrap();
        assert!(approx(f(hit.t), 1.0));
        assert!((hit.prim_id as usize) < n);
        assert!(scene.any_hit(&Machine, &r));
        let inner = build(&Machine, &vec![mesh(&verts, &tris)]);
        let mut chunks = Vec::new();
        chunks_under(&inner, 0, &mut chunks);
        chunks.sort();
        assert_eq!(chunks, (0..n.div_ceil(8)).collect::<Vec<usize>>());
    }
}

#[test]
fn boxes_hold_the_triangles_under_them() {
    let (verts, tris) = field(700);
    let inner = build(&Machine, &vec![mesh(&verts, &tris)]);
    let mut below_root = Vec::new();
    chunks_under(&inner, 0, &mut below_root);
    below_root.sort();
    assert_eq!(below_root, (0..inner.soa_chunks.len()).collect::<Vec<usize>>());
    for node in &inner.nodes {
        for slot in 0..8 {
            if node.children[slot] == NO_CHILD {
                continue;
            }
            let mut chunks = Vec::new();
            chunks_under(&inner, node.children[slot], &mut chunks);
            for k in chunks.iter().flat_map(|c| 8 * c..8 * c + 8) {
                let id = inner.tri_slots[k];
                if id.geom_id == u32::MAX {
                    continue;
                }
                for v in tris[id.orig_idx as usize] {
                    let p = verts[v as usize];
                    assert!(f(node.p_min_x[slot]) <= p[0] && p[0] <= f(node.p_max_x[slot]));
                    assert!(f(node.p_min_y[slot]) <= p[1] && p[1] <= f(node.p_max_y[slot]));
                    assert!(f(node.p_min_z[slot]) <= p[2] && p[2] <= f(node.p_max_z[slot]));
                }
            }
        }
    }
}

#[test]
fn double_sided_triangle_is_hit_from_behind() {
    let g = mesh(&[[0.0, 0.0, 0.0], [1.0, 0.0, 0.0], [0.0, 1.0, 0.0]], &[[0, 1, 2]]).with_double_sided(vec![true]);
    let mut scene = Scene::new();
    scene.attach_geometry(g);
    scene.commit(&Machine);
    let r = ray([0.25, 0.25, -1.0], [0.0, 0.0, 1.0]);
    let hit = scene.closest_hit(&Machine, &r).unwrap();
    assert_eq!(f(hit.t), 1.0);
    assert!(scene.any_hit(&Machine, &r));
}

#[test]
fn geometries_are_told_apart() {
    let mut scene = Scene::new();
    let far = mesh(&[[0.0, 0.0, -2.0], [1.0, 0.0, -2.0], [0.0, 1.0, -2.0]], &[[0, 1, 2]]);
    let near = mesh(&[[0.0, 0.0, 0.0], [1.0, 0.0, 0.0], [0.0, 1.0, 0.0]], &[[0, 1, 2]]);
    assert_eq!(scene.attach_geometry(far), 0);
    assert_eq!(scene.attach_geometry(near), 1);
    assert!(scene.closest_hit(&Machine, &ray_ref()).is_none());
    scene.commit(&Machine);
    let hit = scene.closest_hit(&Machine, &ray_ref()).unwrap();
    assert_eq!((hit.prim_id, hit.geom_id), (0, 1));
}

#[test]
fn attaching_drops_the_tree() {
    let mut scene = one_tri();
    assert!(scene.any_hit(&Machine, &ray_ref()));
    scene.attach_geometry(mesh(&[], &[]));
    assert!(!scene.any_hit(&Machine, &ray_ref()));
    scene.commit(&Machine);
    assert!(scene.any_hit(&Machine, &ray_ref()));
}

#[test]
fn missing_corner_is_not_buildable() {
    assert!(!check_buildable(&vec![mesh(&[[0.0, 0.0, 0.0]], &[[0, 0, 1]])]));
    assert!(check_buildable(&vec![mesh(&[[0.0, 0.0, 0.0]], &[[0, 0, 0]])]));
    assert!(check_buildable(&vec![]));
}

#[test]
fn leaf_references_read_back() {
    let e = Bvh8Node::encode_leaf(0x12_3456, 3);
    assert_eq!(e, 0x8312_3456);
    assert!(Bvh8Node::is_leaf(e));
    assert_eq!(Bvh8Node::leaf_start(e), 0x12_3456);
    assert_eq!(Bvh8Node::leaf_count(e), 3);
    assert!(!Bvh8Node::is_leaf(7));
}

#[test]
fn unlinked_library_answers_with_misses() {
    let mut scene = rnpt::accel::embree::Scene::new();
    let tri = vec![point([0.0, 0.0, 0.0]), point([1.0, 0.0, 0.0]), point([0.0, 1.0, 0.0])];
    let g = rnpt::accel::embree::Geometry::triangle_mesh(tri, vec![[0, 1, 2]]);
    assert_eq!(scene.attach_geometry(g), 0);
    scene.commit();
    assert!(scene.closest_hit(&Machine, &ray_ref()).is_none());
    assert!(!scene.any_hit(&Machine, &ray_ref()));
}
