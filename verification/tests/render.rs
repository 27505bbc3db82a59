//! Light, surfaces and paths, with the arithmetic of the machine.
use nalgebra::{Matrix3, Matrix4, Vector3, Vector4};
use rnpt::accel::bvh::Ray;
use rnpt::arith::Arith;
use rnpt::camera::camera_ray;
use rnpt::emitters::{EmitterTri, MeshEmitter};
use rnpt::flatten::{check_flattenable, Axes, BvhBuilder, SceneMath};
use rnpt::gui::GuiState;
use rnpt::light::{build_lights, EnvLight, Light};
use rnpt::material::evaluate_surface;
use rnpt::nirc::mlp::NircMlp;
use rnpt::pcg32::Pcg32;
use rnpt::scalar::{Point3, Scalar};
use rnpt::scene::{Camera, Material, Mesh, Node, Scene, Texture, Transform, Triangle, Vec2, Vec4};
use rnpt::setup::{build_bvh_and_lights, configure, empty_scene, with_env};
use rnpt::texture::{missing_color, modulate};
use rnpt::tracer::bounce::russian_roulette;
use rnpt::tracer::config::{Pixel, SamplingStrategy};
use rnpt::tracer::path::PathTracer;
use std::sync::Arc;

fn s(x: f32) -> Scalar {
    Scalar::from_bits(x.to_bits())
}

fn f(x: Scalar) -> f32 {
    f32::from_bits(x.to_bits())
}

fn point(p: [f32; 3]) -> Point3 {
    Point3 { x: s(p[0]), y: s(p[1]), z: s(p[2]) }
}

fn coords(p: Point3) -> [f32; 3] {
    [f(p.x), f(p.y), f(p.z)]
}

/// Single-precision arithmetic of the machine.
struct Machine;

impl Arith for Machine {
    fn sum(&self, a: Scalar, b: Scalar) -> Scalar {
        s(f(a) + f(b))
    }

    fn difference(&self, a: Scalar, b: Scalar) -> Scalar {
        s(f(a) - f(b))
    }

    fn product(&self, a: Scalar, b: Scalar) -> Scalar {
        s(f(a) * f(b))
    }

    fn quotient(&self, a: Scalar, b: Scalar) -> Scalar {
        s(f(a) / f(b))
    }

    fn fused(&self, a: Scalar, b: Scalar, c: Scalar) -> Scalar {
        s(f(a).mul_add(f(b), f(c)))
    }

    fn root(&self, a: Scalar) -> Scalar {
        s(f(a).sqrt())
    }

    fn sine(&self, a: Scalar) -> Scalar {
        s(f(a).sin())
    }

    fn cosine(&self, a: Scalar) -> Scalar {
        s(f(a).cos())
    }

    fn slope(&self, a: Scalar) -> Scalar {
        s(f(a).tan())
    }

    fn arc_cosine(&self, a: Scalar) -> Scalar {
        s(f(a).acos())
    }

    fn arc_tangent(&self, y: Scalar, x: Scalar) -> Scalar {
        s(f(y).atan2(f(x)))
    }

    fn power(&self, a: Scalar, b: Scalar) -> Scalar {
        s(f(a).powf(f(b)))
    }

    fn whole_power(&self, a: Scalar, n: i32) -> Scalar {
        s(f(a).powi(n))
    }

    fn wrapped(&self, a: Scalar, b: Scalar) -> Scalar {
        s(f(a).rem_euclid(f(b)))
    }

    fn floor(&self, a: Scalar) -> Scalar {
        s(f(a).floor())
    }

    fn exponential(&self, a: Scalar) -> Scalar {
        s(f(a).exp())
    }

    fn logarithm(&self, a: Scalar) -> Scalar {
        s(f(a).ln())
    }

    fn of_count(&self, n: usize) -> Scalar {
        s(n as f32)
    }

    fn to_count(&self, a: Scalar) -> usize {
        f(a) as usize
    }

    fn of_index(&self, n: i32) -> Scalar {
        s(n as f32)
    }

    fn to_index(&self, a: Scalar) -> i32 {
        f(a) as i32
    }

    fn to_natural(&self, a: Scalar) -> u32 {
        f(a) as u32
    }

    fn inner(&self, a: &Vec<Scalar>, b: &Vec<Scalar>) -> Scalar {
        s(a.iter().zip(b).map(|(x, y)| f(*x) * f(*y)).sum())
    }
}

fn matrix(t: &Transform) -> Matrix4<f32> {
    let column = |v: Vec4| Vector4::new(f(v.x), f(v.y), f(v.z), f(v.w));
    Matrix4::from_columns(&[column(t.x), column(t.y), column(t.z), column(t.w)])
}

fn transform(m: &Matrix4<f32>) -> Transform {
    let column = |i: usize| Vec4 { x: s(m[(0, i)]), y: s(m[(1, i)]), z: s(m[(2, i)]), w: s(m[(3, i)]) };
    Transform { x: column(0), y: column(1), z: column(2), w: column(3) }
}

fn vector(p: Point3) -> Vector3<f32> {
    Vector3::new(f(p.x), f(p.y), f(p.z))
}

fn linear(t: &Transform) -> Matrix3<f32> {
    matrix(t).fixed_view::<3, 3>(0, 0).into()
}

impl SceneMath for Machine {
    fn compose(&self, parent: &Transform, local: &Transform) -> Transform {
        transform(&(matrix(parent) * matrix(local)))
    }

    fn linear(&self, t: &Transform, v: Point3) -> Point3 {
        let q = linear(t) * vector(v);
        point([q.x, q.y, q.z])
    }

    fn determinant(&self, t: &Transform) -> Scalar {
        s(linear(t).determinant())
    }

    fn inverse(&self, t: &Transform) -> Option<Axes> {
        let m = linear(t).try_inverse()?;
        let column = |i: usize| point([m[(0, i)], m[(1, i)], m[(2, i)]]);
        Some(Axes { x: column(0), y: column(1), z: column(2) })
    }
}

fn near(a: f32, b: f32, tolerance: f32) -> bool {
    (a - b).abs() <= tolerance
}

fn unit(p: [f32; 3]) -> Point3 {
    let v = Vector3::new(p[0], p[1], p[2]).normalize();
    point([v.x, v.y, v.z])
}

fn uv(x: f32, y: f32) -> Vec2 {
    Vec2 { x: s(x), y: s(y) }
}

fn quad(y: f32, half: f32, up: bool, material: u32) -> Mesh {
    let corners = [[-half, y, -half], [half, y, -half], [half, y, half], [-half, y, half]];
    let tris = if up { [[0, 2, 1], [0, 3, 2]] } else { [[0, 1, 2], [0, 2, 3]] };
    Mesh {
        vertices: corners.iter().map(|c| point(*c)).collect(),
        normals: vec![point([0.0, if up { 1.0 } else { -1.0 }, 0.0]); 4],
        uvs: vec![uv(0.0, 0.0), uv(1.0, 0.0), uv(1.0, 1.0), uv(0.0, 1.0)],
        colors: vec![],
        tangents: vec![],
        triangles: tris.iter().map(|t| Triangle { v0: t[0], v1: t[1], v2: t[2] }).collect(),
        material,
    }
}

fn scene_of(meshes: Vec<Mesh>, materials: Vec<Material>) -> Scene {
    let all = (0..meshes.len() as u32).collect();
    Scene {
        meshes,
        materials,
        textures: vec![],
        lights: vec![],
        nodes: vec![Node { transform: Transform::identity(), children: vec![], meshes: all }],
        roots: vec![0],
        cameras: vec![],
    }
}

fn grey(albedo: f32) -> Material {
    let mut m = Material::default();
    m.albedo = point([albedo; 3]);
    m.roughness = s(1.0);
    m
}

fn sky(value: f32) -> EnvLight {
    EnvLight::new(&Machine, vec![point([value; 3]); 32], 8, 4, s(1.0), s(0.0))
}

/// A tracer of a small picture, seen from a place.
fn tracer(scene: Scene, env: Option<EnvLight>, from: [f32; 3], to: [f32; 3], strategy: SamplingStrategy) -> PathTracer {
    assert!(check_flattenable(&scene));
    let built = build_bvh_and_lights(&Machine, &scene).unwrap();
    let mut state = GuiState::new(0, Some(Camera { position: point(from), target: point(to), fov: s(20.0) }), 0);
    state.width = 4;
    state.height = 4;
    state.strategy = strategy;
    let config = configure(&state, Arc::new(scene), Arc::new(built.bvh), built.lights, env.map(Arc::new));
    PathTracer::new(&Machine, config)
}

/// The mean of some samples of the pixel in the middle.
fn render(t: &PathTracer, samples: u32) -> [f32; 3] {
    let mut pixel = Pixel::default();
    for _ in 0..samples {
        t.sample_pixel(&Machine, 2, 2, &mut pixel);
    }
    assert_eq!(pixel.samples, samples);
    coords(pixel.accumulated_radiance).map(|c| c / samples as f32)
}

#[test]
fn textures_are_blended_between_pixels() {
    let t = Texture { width: 2, height: 1, pixels: vec![point([0.0, 0.0, 1.0]), point([1.0, 0.5, 1.0])] };
    assert_eq!(coords(t.sample_bilinear(&Machine, uv(0.0, 0.0))), [0.0, 0.0, 1.0]);
    assert_eq!(coords(t.sample_bilinear(&Machine, uv(0.25, 0.7))), [0.25, 0.125, 1.0]);
    assert_eq!(coords(t.sample_bilinear(&Machine, uv(3.25, 0.7))), [0.25, 0.125, 1.0]);
    assert_eq!(coords(t.sample_bilinear(&Machine, uv(-0.75, 0.7))), [0.25, 0.125, 1.0]);
    let empty = Texture { width: 0, height: 0, pixels: vec![] };
    assert_eq!(empty.sample_bilinear(&Machine, uv(0.5, 0.5)), missing_color());
}

#[test]
fn textures_modulate_colors() {
    let textures = vec![Texture { width: 1, height: 1, pixels: vec![point([0.5, 1.0, 0.0])] }];
    let base = point([0.8, 0.8, 0.8]);
    assert_eq!(coords(modulate(&Machine, &textures, Some(0), base, uv(0.0, 0.0))), [0.4, 0.8, 0.0]);
    assert_eq!(modulate(&Machine, &textures, None, base, uv(0.0, 0.0)), base);
}

#[test]
fn punctual_lights_are_sampled_where_they_are() {
    let none = vec![];
    let mut rng = Pcg32::from_seed_128(0);
    let origin = point([0.0; 3]);
    let lamp = Light::Point { position: point([0.0, 2.0, 0.0]), color: point([1.0, 0.5, 0.0]), intensity: s(8.0) };
    let a = lamp.sample_li(&Machine, origin, &mut rng, &none).unwrap();
    assert_eq!((coords(a.wi), f(a.distance), f(a.pdf)), ([0.0, 1.0, 0.0], 2.0, 1.0));
    let li = coords(a.li);
    assert!(li[0] > 0.0 && near(li[1], li[0] / 2.0, 1e-6) && li[2] == 0.0);
    let far = lamp.sample_li(&Machine, point([0.0, -2.0, 0.0]), &mut rng, &none).unwrap();
    assert!(near(coords(far.li)[0] * 4.0, li[0], 1e-5));
    let sun = Light::Directional { direction: point([0.0, -1.0, 0.0]), color: point([1.0; 3]), intensity: s(3.0) };
    let b = sun.sample_li(&Machine, origin, &mut rng, &none).unwrap();
    assert_eq!((coords(b.wi), f(b.distance), coords(b.li)), ([0.0, 1.0, 0.0], f32::INFINITY, [3.0; 3]));
    assert!(lamp.is_delta() && sun.is_delta() && !lamp.is_area());
    assert_eq!(f(lamp.env_pdf(&Machine, origin)), 0.0);
}

fn emitter_tri(a: [f32; 3], b: [f32; 3], c: [f32; 3]) -> EmitterTri {
    let zero = Vec2::zero();
    EmitterTri {
        v0: point(a),
        v1: point(b),
        v2: point(c),
        uv0: zero,
        uv1: zero,
        uv2: zero,
        normal: point([0.0, 0.0, 1.0]),
    }
}

#[test]
fn emitters_are_sampled_by_area() {
    let small = emitter_tri([0.0, 0.0, 0.0], [1.0, 0.0, 0.0], [0.0, 1.0, 0.0]);
    let large = emitter_tri([5.0, 0.0, 0.0], [8.0, 0.0, 0.0], [5.0, 1.0, 0.0]);
    assert_eq!(f(large.area(&Machine)), 1.5);
    let e = MeshEmitter::new(&Machine, vec![small, large], point([1.0, 2.0, 3.0]), None).unwrap();
    assert_eq!(f(e.total_area()), 2.0);
    let mut rng = Pcg32::from_seed_128(11);
    let mut hits = 0;
    for _ in 0..2000 {
        let p = e.sample_geom(&Machine, &mut rng);
        assert_eq!(f(p.pdf_area), 0.5);
        let [x, y, _] = coords(p.p);
        assert!(y >= 0.0 && y <= 1.0);
        if p.tri_idx == 1 {
            hits += 1;
            assert!((5.0..=8.0).contains(&x));
        } else {
            assert!((0.0..=1.0).contains(&x));
        }
        assert_eq!(coords(e.le_at(&Machine, &p, &vec![])), [1.0, 2.0, 3.0]);
    }
    assert!((1400..1600).contains(&hits), "{hits}");
    assert!(MeshEmitter::new(&Machine, vec![], point([1.0; 3]), None).is_none());
}

#[test]
fn area_lights_shine_to_their_front_only() {
    let tri = emitter_tri([0.0, 0.0, 0.0], [1.0, 0.0, 0.0], [0.0, 1.0, 0.0]);
    let light = Light::Area(Arc::new(MeshEmitter::new(&Machine, vec![tri], point([1.0; 3]), None).unwrap()));
    assert!(light.is_area() && !light.is_delta());
    let mut rng = Pcg32::from_seed_128(2);
    let front = light.sample_li(&Machine, point([0.2, 0.2, 2.0]), &mut rng, &vec![]).unwrap();
    assert_eq!(coords(front.li), [1.0; 3]);
    assert!(f(front.pdf) > 0.0);
    assert!(light.sample_li(&Machine, point([0.2, 0.2, -2.0]), &mut rng, &vec![]).is_none());
    assert_eq!(f(light.area_pdf(&Machine, s(4.0), s(0.5))), 16.0);
    assert_eq!(f(light.area_pdf(&Machine, s(4.0), s(-0.5))), 0.0);
}

#[test]
fn environments_are_sampled_by_their_density() {
    let mut pixels = vec![point([0.1; 3]); 32];
    pixels[10] = point([50.0, 40.0, 30.0]);
    let env = Light::Environment(Arc::new(EnvLight::new(&Machine, pixels, 8, 4, s(2.0), s(0.7))));
    let mut rng = Pcg32::from_seed_128(21);
    let mut bright = 0;
    for _ in 0..300 {
        let l = env.sample_li(&Machine, point([0.0; 3]), &mut rng, &vec![]).unwrap();
        let pdf = f(env.env_pdf(&Machine, l.wi));
        assert!(near(pdf, f(l.pdf), 1e-3 * f(l.pdf).max(1.0)), "{pdf} vs {}", f(l.pdf));
        if coords(l.li)[0] > 5.0 {
            bright += 1;
        }
        assert_eq!(f(l.distance), f32::INFINITY);
    }
    assert!(bright > 200, "{bright}");
}

#[test]
fn lights_of_meshes_follow_the_others() {
    let tri = emitter_tri([0.0, 0.0, 0.0], [1.0, 0.0, 0.0], [0.0, 1.0, 0.0]);
    let e = MeshEmitter::new(&Machine, vec![tri], point([1.0; 3]), None).unwrap();
    let lamp = Light::Point { position: point([0.0; 3]), color: point([1.0; 3]), intensity: s(1.0) };
    let lights = build_lights(vec![lamp], vec![e]);
    assert_eq!(lights.iter().map(|l| l.is_area()).collect::<Vec<_>>(), [false, true]);
    let (all, index) = with_env(lights, Some(Arc::new(sky(1.0))));
    assert_eq!((all.len(), index), (3, Some(2)));
    assert_eq!(with_env(vec![], None).1, None);
}

#[test]
fn cameras_look_at_their_target() {
    let c = Camera { position: point([1.0, 2.0, 3.0]), target: point([1.0, 2.0, -3.0]), fov: s(90.0) };
    let m = c.compute_camera_to_world(&Machine);
    let middle = camera_ray(&Machine, m, c.fov, 100, 50, s(49.5), s(24.5), s(0.5), s(0.5));
    assert_eq!((coords(middle.org), coords(middle.dir)), ([1.0, 2.0, 3.0], [0.0, 0.0, -1.0]));
    let top = coords(camera_ray(&Machine, m, c.fov, 100, 50, s(49.5), s(-0.5), s(0.5), s(0.5)).dir);
    assert!(near(top[1], 0.5f32.sqrt(), 1e-5) && near(top[2], -0.5f32.sqrt(), 1e-5));
    let right = coords(camera_ray(&Machine, m, c.fov, 100, 50, s(99.5), s(24.5), s(0.5), s(0.5)).dir);
    assert!(right[0] > 0.8);
}

#[test]
fn surfaces_are_interpolated() {
    let mut floor = quad(0.0, 1.0, true, 0);
    floor.colors = vec![point([1.0, 0.0, 0.0]), point([1.0, 0.0, 0.0]), point([0.0, 1.0, 0.0]), point([0.0, 1.0, 0.0])];
    let mut scene = scene_of(vec![floor], vec![grey(0.5)]);
    scene.textures.push(Texture { width: 1, height: 1, pixels: vec![point([1.0, 1.0, 0.5])] });
    scene.materials[0].albedo_texture = Some(0);
    let bvh = BvhBuilder::new(&Machine, &scene).build(&Machine).0;
    let ray = Ray::new(point([0.0, 2.0, 0.5]), point([0.0, -1.0, 0.0]));
    let hit = bvh.intersect(&Machine, &ray).unwrap();
    let surf = evaluate_surface(&Machine, &hit, &ray, &bvh, &scene);
    let p = coords(surf.position);
    assert!(near(p[0], 0.0, 1e-5) && near(p[1], 0.0, 1e-5) && near(p[2], 0.5, 1e-5));
    assert_eq!(coords(surf.geo_normal), [0.0, 1.0, 0.0]);
    assert!(near(f(surf.normal.y), 1.0, 1e-5));
    let c = coords(surf.albedo);
    assert!(near(c[0], 0.125, 1e-5) && near(c[1], 0.375, 1e-5) && near(c[2], 0.0, 1e-5), "{c:?}");
}

#[test]
fn normal_maps_tilt_the_normal() {
    let mut scene = scene_of(vec![quad(0.0, 1.0, true, 0)], vec![grey(0.5)]);
    scene.textures.push(Texture { width: 1, height: 1, pixels: vec![point([1.0, 0.5, 0.5])] });
    scene.materials[0].normal_texture = Some(0);
    scene.materials[0].normal_scale = s(0.5);
    let bvh = BvhBuilder::new(&Machine, &scene).build(&Machine).0;
    let ray = Ray::new(point([0.1, 2.0, 0.3]), point([0.0, -1.0, 0.0]));
    let hit = bvh.intersect(&Machine, &ray).unwrap();
    let n = coords(evaluate_surface(&Machine, &hit, &ray, &bvh, &scene).normal);
    assert_eq!(n, [0.0, 1.0, 0.0], "a normal that faces away is not used");
    scene.textures[0].pixels[0] = point([1.0, 0.5, 1.0]);
    let n = coords(evaluate_surface(&Machine, &hit, &ray, &bvh, &scene).normal);
    let wanted = coords(unit([0.5, 1.0, 0.0]));
    assert!(near(n[0].abs(), wanted[0], 1e-4) && near(n[1], wanted[1], 1e-4), "{n:?}");
}

#[test]
fn empty_scenes_are_never_hit() {
    let built = build_bvh_and_lights(&Machine, &empty_scene()).unwrap();
    assert_eq!((built.triangle_count, built.lights.len()), (0, 0));
    for d in [[0.0, 0.0, -1.0], [1.0, 0.0, 0.0], [0.0, 1.0, 0.0]] {
        let ray = Ray::new(point([0.25, 0.25, 1.0]), point(d));
        assert!(built.bvh.intersect(&Machine, &ray).is_none());
        assert!(!built.bvh.is_occluded(&Machine, &ray));
    }
}

#[test]
fn lights_of_a_scene_come_first() {
    let mut scene = empty_scene();
    let sun = Light::Directional { direction: point([0.0, -1.0, 0.0]), color: point([1.0, 0.5, 0.25]), intensity: s(2.0) };
    let sky = Arc::new(sky(0.75));
    scene.lights = vec![sun, Light::Environment(sky.clone())];
    let built = build_bvh_and_lights(&Machine, &scene).unwrap();
    assert_eq!(built.lights.len(), 2);
    match &built.lights[0] {
        Light::Directional { direction, color, intensity } => {
            assert_eq!((*direction, *color, *intensity), (point([0.0, -1.0, 0.0]), point([1.0, 0.5, 0.25]), s(2.0)));
        }
        _ => panic!("the first light is another"),
    }
    assert!(matches!(&built.lights[1], Light::Environment(e) if Arc::ptr_eq(e, &sky)));
}

#[test]
fn empty_scenes_show_the_environment() {
    for strategy in [SamplingStrategy::Mis, SamplingStrategy::BrdfOnly, SamplingStrategy::DirectOnly] {
        let t = tracer(empty_scene(), Some(sky(0.75)), [0.0, 0.0, 3.0], [0.0; 3], strategy);
        for c in render(&t, 4) {
            assert!(near(c, 0.75, 1e-4));
        }
    }
    let dark = tracer(empty_scene(), None, [0.0, 0.0, 3.0], [0.0; 3], SamplingStrategy::Mis);
    assert_eq!(render(&dark, 2), [0.0; 3]);
}

#[test]
fn cameras_see_light_whole() {
    for strategy in [SamplingStrategy::Mis, SamplingStrategy::NeeOnly, SamplingStrategy::BrdfOnly] {
        let mut lamp = grey(0.0);
        lamp.emissive = point([3.0, 2.0, 1.0]);
        let scene = scene_of(vec![quad(0.0, 2.0, true, 0)], vec![lamp]);
        let t = tracer(scene, None, [0.0, 3.0, 0.1], [0.0; 3], strategy);
        let c = render(&t, 8);
        assert!(near(c[0], 3.0, 0.05) && near(c[1], 2.0, 0.05) && near(c[2], 1.0, 0.05), "{strategy:?}: {c:?}");
    }
}

#[test]
fn estimators_agree() {
    let picture = |strategy, samples| {
        let mut lamp = grey(0.0);
        lamp.emissive = point([4.0; 3]);
        let scene = scene_of(vec![quad(0.0, 4.0, true, 0), quad(2.0, 1.0, false, 1)], vec![grey(0.6), lamp]);
        let t = tracer(scene, None, [0.0, 1.5, 5.0], [0.0, 0.0, 0.0], strategy);
        render(&t, samples)[0]
    };
    let mis = picture(SamplingStrategy::Mis, 3000);
    let nee = picture(SamplingStrategy::NeeOnly, 3000);
    let brdf = picture(SamplingStrategy::BrdfOnly, 6000);
    assert!(mis > 0.1);
    assert!(near(nee, mis, 0.05 * mis), "{nee} vs {mis}");
    assert!(near(brdf, mis, 0.1 * mis), "{brdf} vs {mis}");
}

#[test]
fn pictures_are_reproducible() {
    let make = || {
        let scene = scene_of(vec![quad(0.0, 4.0, true, 0)], vec![grey(0.6)]);
        render(&tracer(scene, Some(sky(1.0)), [0.0, 2.0, 3.0], [0.0; 3], SamplingStrategy::Mis), 5)
    };
    assert_eq!(make(), make());
}

#[test]
fn light_passes_through_glass() {
    let mut glass = grey(1.0);
    glass.transmission = s(1.0);
    glass.roughness = s(0.0);
    let scene = scene_of(vec![quad(0.0, 3.0, true, 0)], vec![glass]);
    let t = tracer(scene, Some(sky(1.0)), [0.0, 3.0, 0.1], [0.0; 3], SamplingStrategy::Mis);
    for c in render(&t, 300) {
        assert!(near(c, 1.0, 0.1), "{c}");
    }
}

#[test]
fn early_bounces_survive() {
    let mut rng = Pcg32::from_seed_128(1);
    let dim = point([0.01; 3]);
    assert_eq!(russian_roulette(&Machine, dim, 0, &mut rng), Some(dim));
    let mut left = 0;
    for _ in 0..1000 {
        if let Some(c) = russian_roulette(&Machine, dim, 20, &mut rng) {
            left += 1;
            assert!(near(coords(c)[0], 1.0, 1e-4));
        }
    }
    assert!((1..40).contains(&left), "{left}");
    let bright = russian_roulette(&Machine, point([2.0; 3]), 20, &mut rng).unwrap();
    assert!(near(coords(bright)[0], 2.0 / 0.95, 1e-5));
}

#[test]
fn training_paths_learn_what_comes_in() {
    let scene = scene_of(vec![quad(0.0, 4.0, true, 0), quad(2.0, 2.0, false, 0)], vec![grey(0.6)]);
    let t = tracer(scene, Some(sky(1.0)), [0.0, 1.0, 5.0], [0.0; 3], SamplingStrategy::Nirc);
    let mut rng = Pcg32::from_seed_128(4);
    let mut found = 0;
    for _ in 0..50 {
        for sample in t.collect_training_samples_for_pixel(&Machine, 2, 2, &mut rng) {
            found += 1;
            assert!(sample.target.iter().all(|c| f(*c).is_finite() && f(*c) >= 0.0));
            assert!(sample.input.iter().all(|x| f(*x).is_finite()));
        }
    }
    assert!(found > 10, "{found}");
}

#[test]
fn probes_need_a_network_and_a_surface() {
    let scene = || scene_of(vec![quad(0.0, 4.0, true, 0)], vec![grey(0.6)]);
    let mut t = tracer(scene(), None, [0.0, 2.0, 3.0], [0.0; 3], SamplingStrategy::Nirc);
    assert!(t.render_nirc_probe(&Machine, s(2.0), s(2.0), 8, 4).is_none());
    let network = NircMlp::new_boxed(&Machine);
    t.set_nirc_network(Some(Arc::new(*network)));
    let probe = t.render_nirc_probe(&Machine, s(2.0), s(2.0), 8, 4).unwrap();
    assert_eq!(probe.len(), 32);
    let place = t.find_probe_place(&Machine, s(2.0), s(2.0)).unwrap();
    assert_eq!(coords(place.geo_normal), [0.0, 1.0, 0.0]);
    assert_eq!(t.strategy(), SamplingStrategy::Nirc);
    assert_eq!(t.config().width, 4);
    assert!(t.config().check());
    let mut broken = t.config().clone();
    broken.env = Some(broken.lights.len());
    assert!(!broken.check());
    let mut blind = tracer(scene(), None, [0.0, 2.0, 3.0], [0.0, 9.0, 9.0], SamplingStrategy::Nirc);
    blind.set_nirc_network(Some(Arc::new(*NircMlp::new_boxed(&Machine))));
    assert!(blind.render_nirc_probe(&Machine, s(2.0), s(2.0), 8, 4).is_none());
}

#[test]
fn networks_stand_in_for_later_bounces() {
    let scene = || scene_of(vec![quad(0.0, 4.0, true, 0)], vec![grey(0.6)]);
    let mut t = tracer(scene(), Some(sky(1.0)), [0.0, 2.0, 3.0], [0.0; 3], SamplingStrategy::Nirc);
    t.set_nirc_network(Some(Arc::new(*NircMlp::new_boxed(&Machine))));
    let mut pixel = Pixel::default();
    let counts = t.sample_pixel(&Machine, 2, 2, &mut pixel);
    assert!(counts.rays <= 2, "{}", counts.rays);
    assert!(coords(pixel.accumulated_radiance).iter().all(|c| c.is_finite()));
}
