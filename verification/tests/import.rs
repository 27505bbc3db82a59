//! From a document to a scene, with the arithmetic of the machine.
use nalgebra::{Matrix3, Matrix4, Vector3, Vector4};
use rnpt::arith::Arith;
use rnpt::flatten::{check_flattenable, Axes, SceneMath};
use rnpt::import::{
    check_document, decode_image, import_material, import_scene, srgb_u8_to_linear, CameraData, Document, ImageData,
    ImportError, LightData, LightKind, MaterialData, NodeData, PixelFormat, PrimitiveData, VolumeData,
};
use rnpt::light::Light;
use rnpt::scalar::{Point3, Scalar};
use rnpt::scene::{Camera, Transform, Vec4};
use rnpt::setup::build_bvh_and_lights;

fn s(x: f32) -> Scalar {
    Scalar::from_bits(x.to_bits())
}

fn f(x: Scalar) -> f32 {
    f32::from_bits(x.to_bits())
}

fn point(p: [f32; 3]) -> Point3 {
    Point3 { x: s(p[0]), y: s(p[1]), z: s(p[2]) }
}

fn coords(p: Point3) -> [f32; 3] {
    [f(p.x), f(p.y), f(p.z)]
}

/// Single-precision arithmetic of the machine.
struct Machine;

impl Arith for Machine {
    fn sum(&self, a: Scalar, b: Scalar) -> Scalar {
        s(f(a) + f(b))
    }

    fn difference(&self, a: Scalar, b: Scalar) -> Scalar {
        s(f(a) - f(b))
    }

    fn product(&self, a: Scalar, b: Scalar) -> Scalar {
        s(f(a) * f(b))
    }

    fn quotient(&self, a: Scalar, b: Scalar) -> Scalar {
        s(f(a) / f(b))
    }

    fn fused(&self, a: Scalar, b: Scalar, c: Scalar) -> Scalar {
        s(f(a).mul_add(f(b), f(c)))
    }

    fn root(&self, a: Scalar) -> Scalar {
        s(f(a).sqrt())
    }

    fn sine(&self, a: Scalar) -> Scalar {
        s(f(a).sin())
    }

    fn cosine(&self, a: Scalar) -> Scalar {
        s(f(a).cos())
    }

    fn slope(&self, a: Scalar) -> Scalar {
        s(f(a).tan())
    }

    fn arc_cosine(&self, a: Scalar) -> Scalar {
        s(f(a).acos())
    }

    fn arc_tangent(&self, y: Scalar, x: Scalar) -> Scalar {
        s(f(y).atan2(f(x)))
    }

    fn power(&self, a: Scalar, b: Scalar) -> Scalar {
        s(f(a).powf(f(b)))
    }

    fn whole_power(&self, a: Scalar, n: i32) -> Scalar {
        s(f(a).powi(n))
    }

    fn wrapped(&self, a: Scalar, b: Scalar) -> Scalar {
        s(f(a).rem_euclid(f(b)))
    }

    fn floor(&self, a: Scalar) -> Scalar {
        s(f(a).floor())
    }

    fn exponential(&self, a: Scalar) -> Scalar {
        s(f(a).exp())
    }

    fn logarithm(&self, a: Scalar) -> Scalar {
        s(f(a).ln())
    }

    fn of_count(&self, n: usize) -> Scalar {
        s(n as f32)
    }

    fn to_count(&self, a: Scalar) -> usize {
        f(a) as usize
    }

    fn of_index(&self, n: i32) -> Scalar {
        s(n as f32)
    }

    fn to_index(&self, a: Scalar) -> i32 {
        f(a) as i32
    }

    fn to_natural(&self, a: Scalar) -> u32 {
        f(a) as u32
    }

    fn inner(&self, a: &Vec<Scalar>, b: &Vec<Scalar>) -> Scalar {
        s(a.iter().zip(b).map(|(x, y)| f(*x) * f(*y)).sum())
    }
}

fn matrix(t: &Transform) -> Matrix4<f32> {
    let column = |v: Vec4| Vector4::new(f(v.x), f(v.y), f(v.z), f(v.w));
    Matrix4::from_columns(&[column(t.x), column(t.y), column(t.z), column(t.w)])
}

fn transform(m: &Matrix4<f32>) -> Transform {
    let column = |i: usize| Vec4 { x: s(m[(0, i)]), y: s(m[(1, i)]), z: s(m[(2, i)]), w: s(m[(3, i)]) };
    Transform { x: column(0), y: column(1), z: column(2), w: column(3) }
}

fn vector(p: Point3) -> Vector3<f32> {
    Vector3::new(f(p.x), f(p.y), f(p.z))
}

fn linear(t: &Transform) -> Matrix3<f32> {
    matrix(t).fixed_view::<3, 3>(0, 0).into()
}

impl SceneMath for Machine {
    fn compose(&self, parent: &Transform, local: &Transform) -> Transform {
        transform(&(matrix(parent) * matrix(local)))
    }

    fn linear(&self, t: &Transform, v: Point3) -> Point3 {
        let q = linear(t) * vector(v);
        point([q.x, q.y, q.z])
    }

    fn determinant(&self, t: &Transform) -> Scalar {
        s(linear(t).determinant())
    }

    fn inverse(&self, t: &Transform) -> Option<Axes> {
        let m = linear(t).try_inverse()?;
        let column = |i: usize| point([m[(0, i)], m[(1, i)], m[(2, i)]]);
        Some(Axes { x: column(0), y: column(1), z: column(2) })
    }
}

fn plain_material() -> MaterialData {
    MaterialData {
        base_color: point([0.5, 0.25, 1.0]),
        emissive_factor: point([1.0, 0.0, 0.5]),
        emissive_strength: None,
        metallic: s(0.0),
        roughness: s(0.5),
        base_color_texture: None,
        emissive_texture: None,
        metallic_roughness_texture: None,
        normal_texture: None,
        occlusion_texture: None,
        normal_scale: None,
        alpha_cutoff: None,
        double_sided: false,
        transmission: None,
        ior: None,
        volume: None,
    }
}

fn part(material: Option<u32>) -> PrimitiveData {
    PrimitiveData {
        positions: vec![point([0.0; 3]), point([1.0, 0.0, 0.0]), point([0.0, 1.0, 0.0])],
        normals: vec![point([0.0, 0.0, 4.0]); 3],
        uvs: vec![],
        colors: vec![],
        tangents: vec![],
        indices: vec![0, 1, 2],
        material,
    }
}

fn node(children: Vec<u32>, mesh: Option<u32>) -> NodeData {
    NodeData { transform: Transform::identity(), children, mesh, camera: None, light: None }
}

fn document() -> Document {
    Document {
        images: vec![],
        materials: vec![plain_material()],
        meshes: vec![vec![part(Some(0)), part(None)], vec![part(Some(0))]],
        nodes: vec![node(vec![1], Some(0)), node(vec![], Some(1))],
        scenes: vec![vec![0]],
        default_scene: Some(0),
    }
}

fn image(format: PixelFormat, bytes: &[u8]) -> ImageData {
    ImageData { width: 1, height: 1, format, bytes: bytes.to_vec() }
}

#[test]
fn colors_are_made_linear() {
    assert_eq!(f(srgb_u8_to_linear(&Machine, 0)), 0.0);
    assert_eq!(f(srgb_u8_to_linear(&Machine, 255)), 1.0);
    assert_eq!(f(srgb_u8_to_linear(&Machine, 10)), 10.0 / 255.0 / 12.92);
    let c = 128.0f32 / 255.0;
    assert_eq!(f(srgb_u8_to_linear(&Machine, 128)), ((c + 0.055) / 1.055).powf(2.4));
}

#[test]
fn images_are_decoded_by_their_format() {
    let pixel = |format, bytes: &[u8], linear| coords(decode_image(&Machine, &image(format, bytes), linear).pixels[0]);
    assert_eq!(pixel(PixelFormat::R8G8B8, &[255, 0, 51], true), [1.0, 0.0, 0.2]);
    assert_eq!(pixel(PixelFormat::R8G8B8A8, &[255, 0, 51, 9], true), [1.0, 0.0, 0.2]);
    assert_eq!(pixel(PixelFormat::R8G8, &[255, 51], true), [1.0, 0.2, 0.0]);
    assert_eq!(pixel(PixelFormat::R8, &[51], true), [0.2, 0.2, 0.2]);
    assert_eq!(pixel(PixelFormat::Other, &[], true), [1.0, 0.0, 1.0]);
    assert_eq!(pixel(PixelFormat::R8, &[255], false), [1.0, 1.0, 1.0]);
}

#[test]
fn images_used_as_data_stay_as_they_are() {
    let mut doc = document();
    doc.images = vec![image(PixelFormat::R8, &[51]), image(PixelFormat::R8, &[51])];
    doc.materials[0].normal_texture = Some(1);
    doc.materials[0].base_color_texture = Some(0);
    let scene = import_scene(&Machine, &doc).unwrap();
    assert_eq!(f(scene.textures[1].pixels[0].x), 0.2);
    assert_eq!(scene.textures[0].pixels[0].x, srgb_u8_to_linear(&Machine, 51));
}

#[test]
fn materials_have_their_usual_values() {
    let m = import_material(&Machine, &plain_material());
    assert_eq!((coords(m.albedo), coords(m.emissive)), ([0.5, 0.25, 1.0], [1.0, 0.0, 0.5]));
    assert_eq!((f(m.ior), f(m.transmission), f(m.normal_scale)), (1.5, 0.0, 1.0));
    assert_eq!((f(m.thickness_factor), f(m.attenuation_distance)), (0.0, f32::INFINITY));
    let mut d = plain_material();
    d.emissive_strength = Some(s(4.0));
    d.ior = Some(s(1.33));
    d.transmission = Some(s(0.5));
    d.volume = Some(VolumeData {
        thickness_factor: s(2.0),
        attenuation_distance: s(3.0),
        attenuation_color: point([0.1, 0.2, 0.3]),
    });
    let m = import_material(&Machine, &d);
    assert_eq!(coords(m.emissive), [4.0, 0.0, 2.0]);
    assert_eq!((f(m.ior), f(m.transmission), f(m.thickness_factor)), (1.33, 0.5, 2.0));
    assert_eq!(coords(m.attenuation_color), [0.1, 0.2, 0.3]);
}

#[test]
fn parts_of_meshes_are_kept_apart() {
    let doc = document();
    assert!(check_document(&doc));
    let scene = import_scene(&Machine, &doc).unwrap();
    assert_eq!(scene.meshes.len(), 3);
    assert_eq!(scene.nodes[0].meshes, [0, 1]);
    assert_eq!(scene.nodes[1].meshes, [2]);
    assert_eq!(scene.nodes[0].children, [1]);
    assert_eq!(scene.roots, [0]);
    assert_eq!(scene.meshes[1].material, 0);
    assert_eq!(coords(scene.meshes[0].normals[0]), [0.0, 0.0, 1.0]);
    let t = scene.meshes[0].triangles[0];
    assert_eq!((t.v0, t.v1, t.v2), (0, 1, 2));
}

#[test]
fn documents_without_cameras_get_one() {
    let scene = import_scene(&Machine, &document()).unwrap();
    assert_eq!(scene.cameras, [Camera::default()]);
}

#[test]
fn cameras_and_lights_stand_where_their_nodes_are() {
    let mut doc = document();
    doc.nodes[0].transform.w = Vec4 { x: s(1.0), y: s(2.0), z: s(3.0), w: s(1.0) };
    doc.nodes[1].transform.w = Vec4 { x: s(0.0), y: s(0.0), z: s(4.0), w: s(1.0) };
    doc.nodes[1].camera = Some(CameraData { yfov: Some(s(std::f32::consts::FRAC_PI_2)) });
    doc.nodes[1].light = Some(LightData { kind: LightKind::Point, color: point([1.0; 3]), intensity: s(683.0) });
    doc.nodes[0].light = Some(LightData { kind: LightKind::Directional, color: point([1.0; 3]), intensity: s(683.0) });
    let scene = import_scene(&Machine, &doc).unwrap();
    let c = scene.cameras[0];
    assert_eq!((coords(c.position), coords(c.target)), ([1.0, 2.0, 7.0], [1.0, 2.0, 6.0]));
    assert!((f(c.fov) - 90.0).abs() < 1e-4);
    assert_eq!(scene.lights.len(), 2);
    match &scene.lights[0] {
        Light::Directional { direction, intensity, .. } => {
            assert_eq!((coords(*direction), f(*intensity)), ([0.0, 0.0, -1.0], 1.0));
        }
        _ => panic!("the parent's light comes first"),
    }
    match &scene.lights[1] {
        Light::Point { position, intensity, .. } => {
            assert_eq!(coords(*position), [1.0, 2.0, 7.0]);
            assert!((f(*intensity) - 683.0 * 4.0 * std::f32::consts::PI / 683.0).abs() < 1e-3, "{}", f(*intensity));
        }
        _ => panic!("the child's light comes second"),
    }
}

#[test]
fn documents_need_a_scene() {
    let mut doc = document();
    doc.scenes = vec![];
    doc.default_scene = None;
    assert!(check_document(&doc));
    assert_eq!(import_scene(&Machine, &doc).err(), Some(ImportError::NoScene));
}

#[test]
fn the_first_scene_is_shown_by_default() {
    let mut doc = document();
    doc.default_scene = None;
    doc.scenes = vec![vec![1], vec![0]];
    assert_eq!(import_scene(&Machine, &doc).unwrap().roots, [1]);
    doc.default_scene = Some(1);
    assert_eq!(import_scene(&Machine, &doc).unwrap().roots, [0]);
}

#[test]
fn broken_documents_are_found_out() {
    let mut missing_mesh = document();
    missing_mesh.nodes[1].mesh = Some(7);
    assert!(!check_document(&missing_mesh));
    let mut circle = document();
    circle.nodes[1].children = vec![0];
    assert!(!check_document(&circle));
    let mut missing_node = document();
    missing_node.scenes = vec![vec![5]];
    assert!(!check_document(&missing_node));
    let mut short_image = document();
    short_image.images = vec![ImageData { width: 2, height: 2, format: PixelFormat::R8, bytes: vec![0; 3] }];
    assert!(!check_document(&short_image));
    let mut no_such_scene = document();
    no_such_scene.default_scene = Some(3);
    assert!(!check_document(&no_such_scene));
}

#[test]
fn imported_scenes_can_be_built() {
    let scene = import_scene(&Machine, &document()).unwrap();
    assert!(check_flattenable(&scene));
    let own = scene.lights.len();
    let built = build_bvh_and_lights(&Machine, &scene).unwrap();
    assert_eq!((built.triangle_count, built.lights.len()), (3, own + 3));
}
