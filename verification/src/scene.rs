//! What a scene is made of.
use vstd::prelude::*;
use crate::light::Light;
use crate::scalar::{Point3, Scalar, ONE_KEY};

verus! {

/// A color, as its red, green and blue parts.
pub type Color = Point3;

/// Key of the number three.
pub const THREE_KEY: i32 = 0x4040_0000;

/// Key of the number sixty.
pub const SIXTY_KEY: i32 = 0x4270_0000;

/// Key of one and a half.
pub const ONE_AND_HALF_KEY: i32 = 0x3fc0_0000;

/// A point of a texture.
#[derive(Clone, Copy, PartialEq, Eq, Structural, Debug)]
pub struct Vec2 {
    pub x: Scalar,
    pub y: Scalar,
}

impl Vec2 {
    /// The origin of textures.
    #[verifier::allow_in_spec]
    pub fn zero() -> Vec2
        returns
            (Vec2 { x: Scalar { key: 0 }, y: Scalar { key: 0 } }),
    {
        Vec2 { x: Scalar { key: 0 }, y: Scalar { key: 0 } }
    }
}

/// A tangent: a direction, and the sign of the bitangent.
#[derive(Clone, Copy, PartialEq, Eq, Structural, Debug)]
pub struct Vec4 {
    pub x: Scalar,
    pub y: Scalar,
    pub z: Scalar,
    pub w: Scalar,
}

impl Vec4 {
    /// The tangent of what has none.
    #[verifier::allow_in_spec]
    pub fn zero() -> Vec4
        returns
            (Vec4 { x: Scalar { key: 0 }, y: Scalar { key: 0 }, z: Scalar { key: 0 }, w: Scalar { key: 0 } }),
    {
        Vec4 { x: Scalar { key: 0 }, y: Scalar { key: 0 }, z: Scalar { key: 0 }, w: Scalar { key: 0 } }
    }
}

/// White.
#[verifier::allow_in_spec]
pub fn white() -> Color
    returns
        (Point3 { x: Scalar { key: ONE_KEY }, y: Scalar { key: ONE_KEY }, z: Scalar { key: ONE_KEY } }),
{
    Point3 { x: Scalar { key: ONE_KEY }, y: Scalar { key: ONE_KEY }, z: Scalar { key: ONE_KEY } }
}

/// Black.
#[verifier::allow_in_spec]
pub fn black() -> Color
    returns
        (Point3 { x: Scalar { key: 0 }, y: Scalar { key: 0 }, z: Scalar { key: 0 } }),
{
    Point3 { x: Scalar { key: 0 }, y: Scalar { key: 0 }, z: Scalar { key: 0 } }
}

/// A change of coordinates: four columns of a matrix.
#[derive(Clone, Copy, PartialEq, Eq, Structural, Debug)]
pub struct Transform {
    pub x: Vec4,
    pub y: Vec4,
    pub z: Vec4,
    pub w: Vec4,
}

impl Transform {
    /// The transform that changes nothing.
    #[verifier::allow_in_spec]
    pub fn identity() -> Transform
        returns
            (Transform {
                x: Vec4 { x: Scalar { key: ONE_KEY }, y: Scalar { key: 0 }, z: Scalar { key: 0 }, w: Scalar { key: 0 } },
                y: Vec4 { x: Scalar { key: 0 }, y: Scalar { key: ONE_KEY }, z: Scalar { key: 0 }, w: Scalar { key: 0 } },
                z: Vec4 { x: Scalar { key: 0 }, y: Scalar { key: 0 }, z: Scalar { key: ONE_KEY }, w: Scalar { key: 0 } },
                w: Vec4 { x: Scalar { key: 0 }, y: Scalar { key: 0 }, z: Scalar { key: 0 }, w: Scalar { key: ONE_KEY } },
            }),
    {
        let o = Scalar::zero();
        let l = Scalar::one();
        Transform {
            x: Vec4 { x: l, y: o, z: o, w: o },
            y: Vec4 { x: o, y: l, z: o, w: o },
            z: Vec4 { x: o, y: o, z: l, w: o },
            w: Vec4 { x: o, y: o, z: o, w: l },
        }
    }
}

/// Where a picture is taken from.
#[derive(Clone, Copy, PartialEq, Eq, Structural, Debug)]
pub struct Camera {
    pub position: Point3,
    pub target: Point3,
    /// Vertical field of view in degrees.
    pub fov: Scalar,
}

impl Default for Camera {
    /// Three units in front of the origin, looking at it.
    fn default() -> (r: Camera)
        ensures
            r == (Camera {
                position: Point3 { x: Scalar { key: 0 }, y: Scalar { key: 0 }, z: Scalar { key: THREE_KEY } },
                target: Point3::origin(),
                fov: Scalar { key: SIXTY_KEY },
            }),
    {
        Camera {
            position: Point3 { x: Scalar { key: 0 }, y: Scalar { key: 0 }, z: Scalar { key: THREE_KEY } },
            target: Point3::origin(),
            fov: Scalar { key: SIXTY_KEY },
        }
    }
}

/// All textures are stored as linear-light RGB, converted from sRGB at load
/// time; linear maps (normals, roughness) are loaded without conversion.
#[derive(Clone)]
pub struct Texture {
    pub width: u32,
    pub height: u32,
    pub pixels: Vec<Color>,
}

/// How a surface takes and gives light.
#[derive(Clone, Copy, PartialEq, Eq, Structural, Debug)]
pub struct Material {
    pub albedo: Color,
    pub emissive: Color,
    pub albedo_texture: Option<u32>,
    pub emissive_texture: Option<u32>,
    pub metallic: Scalar,
    pub roughness: Scalar,
    /// G = roughness, B = metallic.
    pub metallic_roughness_texture: Option<u32>,
    pub normal_texture: Option<u32>,
    pub normal_scale: Scalar,
    /// None = opaque or blended, Some(t) = masked.
    pub alpha_cutoff: Option<Scalar>,
    pub double_sided: bool,
    /// 0 = opaque, 1 = fully transparent.
    pub transmission: Scalar,
    /// Index of refraction.
    pub ior: Scalar,
    /// 0 = thin surface (no refraction), above 0 = volume boundary.
    pub thickness_factor: Scalar,
    /// Distance at which `attenuation_color` is reached.
    pub attenuation_distance: Scalar,
    /// Color of transmitted light at `attenuation_distance`.
    pub attenuation_color: Color,
}

impl Material {
    /// Whether the surface gives light of its own.
    #[verifier::allow_in_spec]
    pub fn is_emissive(self) -> bool
        returns
            Scalar::zero().lt(self.emissive.x) || Scalar::zero().lt(self.emissive.y) || Scalar::zero().lt(
                self.emissive.z,
            ),
    {
        Scalar::zero().lt(self.emissive.x) || Scalar::zero().lt(self.emissive.y) || Scalar::zero().lt(
            self.emissive.z,
        )
    }

    /// Whether light passes through the surface, so that rays meet it from behind.
    #[verifier::allow_in_spec]
    pub fn is_transmissive(self) -> bool
        returns
            Scalar::zero().lt(self.transmission),
    {
        Scalar::zero().lt(self.transmission)
    }
}

/// A white, rough, opaque surface.
pub open spec fn default_material() -> Material {
    Material {
        albedo: white(),
        emissive: black(),
        albedo_texture: None,
        emissive_texture: None,
        metallic: Scalar::zero(),
        roughness: Scalar::one(),
        metallic_roughness_texture: None,
        normal_texture: None,
        normal_scale: Scalar::one(),
        alpha_cutoff: None,
        double_sided: false,
        transmission: Scalar::zero(),
        ior: Scalar { key: ONE_AND_HALF_KEY },
        thickness_factor: Scalar::zero(),
        attenuation_distance: Scalar::infinity(),
        attenuation_color: white(),
    }
}

impl Default for Material {
    /// A white, rough, opaque surface.
    fn default() -> (r: Material)
        ensures
            r == default_material(),
    {
        Material {
            albedo: white(),
            emissive: black(),
            albedo_texture: None,
            emissive_texture: None,
            metallic: Scalar::zero(),
            roughness: Scalar::one(),
            metallic_roughness_texture: None,
            normal_texture: None,
            normal_scale: Scalar::one(),
            alpha_cutoff: None,
            double_sided: false,
            transmission: Scalar::zero(),
            ior: Scalar { key: ONE_AND_HALF_KEY },
            thickness_factor: Scalar::zero(),
            attenuation_distance: Scalar::infinity(),
            attenuation_color: white(),
        }
    }
}

/// A triangle of a mesh, by the indices of its corners.
#[derive(Clone, Copy, PartialEq, Eq, Structural, Debug)]
pub struct Triangle {
    pub v0: u32,
    pub v1: u32,
    pub v2: u32,
}

/// Triangles of one material, with what is known at their corners.
#[derive(Clone)]
pub struct Mesh {
    pub vertices: Vec<Point3>,
    pub normals: Vec<Point3>,
    /// Empty if the mesh is not textured.
    pub uvs: Vec<Vec2>,
    /// Empty if the mesh is white.
    pub colors: Vec<Color>,
    /// Empty if the mesh has no tangents.
    pub tangents: Vec<Vec4>,
    pub triangles: Vec<Triangle>,
    pub material: u32,
}

/// A place in a scene: where it is relative to its parent, and what is there.
#[derive(Clone)]
pub struct Node {
    pub transform: Transform,
    pub children: Vec<u32>,
    pub meshes: Vec<u32>,
}

/// All that a picture is made from.
#[derive(Clone)]
pub struct Scene {
    pub meshes: Vec<Mesh>,
    pub materials: Vec<Material>,
    pub textures: Vec<Texture>,
    pub lights: Vec<Light>,
    pub nodes: Vec<Node>,
    pub roots: Vec<u32>,
    pub cameras: Vec<Camera>,
}

/// A color by its parts.
pub trait ColorExt: Sized {
    /// Black.
    fn black() -> Self;

    /// White.
    fn white() -> Self;

    /// The color with given parts.
    fn rgb(r: Scalar, g: Scalar, b: Scalar) -> Self;

    /// The red part.
    fn r(&self) -> Scalar;

    /// The green part.
    fn g(&self) -> Scalar;

    /// The blue part.
    fn b(&self) -> Scalar;
}

impl ColorExt for Point3 {
    fn black() -> (r: Point3)
        ensures
            r == black(),
    {
        black()
    }

    fn white() -> (r: Point3)
        ensures
            r == white(),
    {
        white()
    }

    fn rgb(r: Scalar, g: Scalar, b: Scalar) -> (c: Point3)
        ensures
            c == (Point3 { x: r, y: g, z: b }),
    {
        Point3 { x: r, y: g, z: b }
    }

    fn r(&self) -> (r: Scalar)
        ensures
            r == self.x,
    {
        self.x
    }

    fn g(&self) -> (r: Scalar)
        ensures
            r == self.y,
    {
        self.y
    }

    fn b(&self) -> (r: Scalar)
        ensures
            r == self.z,
    {
        self.z
    }
}

} // verus!
