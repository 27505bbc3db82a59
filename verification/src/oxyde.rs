//! A scene description without textures, and a stand-in for a renderer: colors
//! that vary with the pixel and the camera.
use vstd::prelude::*;
use crate::arith::{Arith, ArithRules};
use crate::emitters::HALF_KEY;
use crate::scalar::{Point3, Scalar};
use crate::scene::{Transform, SIXTY_KEY, THREE_KEY};

verus! {

/// Key of a tenth.
pub const TENTH_KEY: i32 = 0x3dcc_cccd;

/// Key of about a full turn.
pub const TURN_KEY: i32 = 0x40c8_f5c3;

/// Key of a degree in radians.
pub const DEGREE_KEY: i32 = 0x3c8e_fa35;

/// Where the light of a light comes from.
#[derive(Clone, Copy, PartialEq, Eq, Structural, Debug)]
pub enum LightType {
    Directional,
    Point,
    Spot,
}

/// A light.
#[derive(Clone, Copy, PartialEq, Eq, Structural, Debug)]
pub struct Light {
    pub position: Point3,
    pub direction: Point3,
    pub color: Point3,
    pub intensity: Scalar,
    pub light_type: LightType,
}

/// A camera of a scene.
#[derive(Clone, Copy, PartialEq, Eq, Structural, Debug)]
pub struct Camera {
    pub position: Point3,
    pub target: Point3,
    /// Field of view in degrees.
    pub fov: Scalar,
}

/// What a surface is made of.
#[derive(Clone, Copy, PartialEq, Eq, Structural, Debug)]
pub struct Material {
    pub albedo: Point3,
    pub emissive: Point3,
}

/// Three corners, by their place in the mesh.
#[derive(Clone, Copy, PartialEq, Eq, Structural, Debug)]
pub struct Triangle {
    pub v0: u32,
    pub v1: u32,
    pub v2: u32,
}

/// A surface made of triangles.
#[derive(Clone, Debug)]
pub struct Mesh {
    pub vertices: Vec<Point3>,
    pub normals: Vec<Point3>,
    pub triangles: Vec<Triangle>,
    pub material: u32,
}

/// A part of the scene, placed in its parent.
#[derive(Clone, Debug)]
pub struct Node {
    pub transform: Transform,
    pub children: Vec<u32>,
    pub mesh: Option<u32>,
}

/// All of a scene.
#[derive(Clone, Debug)]
pub struct Scene {
    pub meshes: Vec<Mesh>,
    pub materials: Vec<Material>,
    pub lights: Vec<Light>,
    pub nodes: Vec<Node>,
    pub cameras: Vec<Camera>,
}

/// The camera that a picture is taken with.
#[derive(Clone, Copy, PartialEq, Eq, Structural, Debug)]
pub struct CameraConfig {
    pub position: Point3,
    pub target: Point3,
    /// Field of view in degrees.
    pub fov: Scalar,
}

impl Default for CameraConfig {
    /// Three steps back from the origin, which it looks at.
    fn default() -> (r: CameraConfig)
        ensures
            r == (CameraConfig {
                position: Point3 { x: Scalar::zero(), y: Scalar::zero(), z: Scalar { key: THREE_KEY } },
                target: Point3::origin(),
                fov: Scalar { key: SIXTY_KEY },
            }),
    {
        CameraConfig {
            position: Point3 { x: Scalar::zero(), y: Scalar::zero(), z: Scalar { key: THREE_KEY } },
            target: Point3::origin(),
            fov: Scalar { key: SIXTY_KEY },
        }
    }
}

/// The sum of the samples of a pixel, and how many there were.
#[derive(Clone, Copy, PartialEq, Eq, Structural, Debug)]
pub struct Pixel {
    pub r: Scalar,
    pub g: Scalar,
    pub b: Scalar,
    pub samples: u32,
}

impl Default for Pixel {
    /// A pixel without samples.
    fn default() -> (r: Pixel)
        ensures
            r == (Pixel { r: Scalar::zero(), g: Scalar::zero(), b: Scalar::zero(), samples: 0 }),
    {
        Pixel { r: Scalar::zero(), g: Scalar::zero(), b: Scalar::zero(), samples: 0 }
    }
}

impl ArithRules {
    /// The color of a sample: red waves along both sides of the picture, green and
    /// blue stay dim.
    pub open spec fn sample_color(self, x: usize, y: usize, width: usize, height: usize, camera: CameraConfig) -> Point3 {
        let u = self.quotient(self.of_count(x), self.of_count(width));
        let v = self.quotient(self.of_count(y), self.of_count(height));
        let turn = Scalar { key: TURN_KEY };
        let half = Scalar { key: HALF_KEY };
        let tenth = Scalar { key: TENTH_KEY };
        Point3 {
            x: self.sum(
                half,
                self.product(
                    self.product(half, self.sine(self.sum(camera.position.x, self.product(u, turn)))),
                    self.cosine(self.sum(camera.position.y, self.product(v, turn))),
                ),
            ),
            y: self.product(tenth, self.cosine(self.sum(camera.target.x, u)).magnitude()),
            z: self.product(
                tenth,
                self.sine(self.sum(self.product(camera.fov, Scalar { key: DEGREE_KEY }), v)).magnitude(),
            ),
        }
    }

    /// A pixel with a sample added.
    pub open spec fn pixel_after(self, pixel: Pixel, c: Point3) -> Pixel {
        Pixel {
            r: self.sum(pixel.r, c.x),
            g: self.sum(pixel.g, c.y),
            b: self.sum(pixel.b, c.z),
            samples: (pixel.samples + 1) as u32,
        }
    }
}

/// A stateless function that computes a sample for a pixel (x, y)
/// and accumulates the result into the given mutable pixel reference.
///
/// This function is thread-safe as long as distinct threads operate
/// on distinct pixel references.
pub fn sample_pixel<M: Arith>(
    math: &M,
    x: usize,
    y: usize,
    width: usize,
    height: usize,
    camera: &CameraConfig,
    pixel: &mut Pixel,
)
    requires
        old(pixel).samples < u32::MAX,
    ensures
        final(pixel).samples == old(pixel).samples + 1,
        forall|rules: ArithRules| #[trigger]
            rules.describe(*math) ==> *final(pixel) == rules.pixel_after(
                *old(pixel),
                rules.sample_color(x, y, width, height, *camera),
            ),
{
    let u = math.quotient(math.of_count(x), math.of_count(width));
    let v = math.quotient(math.of_count(y), math.of_count(height));
    let turn = Scalar { key: TURN_KEY };
    let half = Scalar { key: HALF_KEY };
    let tenth = Scalar { key: TENTH_KEY };
    let r = math.sum(
        half,
        math.product(
            math.product(half, math.sine(math.sum(camera.position.x, math.product(u, turn)))),
            math.cosine(math.sum(camera.position.y, math.product(v, turn))),
        ),
    );
    let g = math.product(tenth, math.cosine(math.sum(camera.target.x, u)).magnitude());
    let b = math.product(
        tenth,
        math.sine(math.sum(math.product(camera.fov, Scalar { key: DEGREE_KEY }), v)).magnitude(),
    );
    pixel.r = math.sum(pixel.r, r);
    pixel.g = math.sum(pixel.g, g);
    pixel.b = math.sum(pixel.b, b);
    pixel.samples = pixel.samples + 1;
}

/// A sample is added color by color, and counted once.
pub proof fn law_sample_is_added_to_its_pixel(rules: ArithRules, c: Point3, pixel: Pixel)
    requires
        rules.keeps_zeros(),
        c.ordered(),
        pixel.r.ordered(),
        pixel.g.ordered(),
        pixel.b.ordered(),
        pixel.samples < u32::MAX,
    ensures
        ({
            let none = Pixel { r: Scalar::zero(), g: Scalar::zero(), b: Scalar::zero(), samples: 0 };
            rules.pixel_after(none, c) == (Pixel { r: c.x, g: c.y, b: c.z, samples: 1 })
        }),
        rules.pixel_after(pixel, Point3::origin()) == (Pixel { samples: (pixel.samples + 1) as u32, ..pixel }),
{
}

/// Green and blue are dim: never below nothing or above a tenth, as sine and cosine
/// stay within one. Red is half bright where its first wave crosses nothing, and one
/// or nothing where both waves are at their ends.
pub proof fn law_sample_color_stays_in_range(
    rules: ArithRules,
    x: usize,
    y: usize,
    width: usize,
    height: usize,
    camera: CameraConfig,
)
    requires
        rules.keeps_ones(),
        rules.keeps_zeros(),
        rules.orders_products(),
        rules.sum(Scalar { key: HALF_KEY }, Scalar { key: HALF_KEY }) == Scalar::one(),
        ({
            let u = rules.quotient(rules.of_count(x), rules.of_count(width));
            let v = rules.quotient(rules.of_count(y), rules.of_count(height));
            let lens = rules.product(camera.fov, Scalar { key: DEGREE_KEY });
            let across = rules.cosine(rules.sum(camera.position.y, rules.product(v, Scalar { key: TURN_KEY })));
            &&& rules.cosine(rules.sum(camera.target.x, u)).magnitude().le(Scalar::one())
            &&& rules.sine(rules.sum(lens, v)).magnitude().le(Scalar::one())
            &&& across.is_finite()
        }),
    ensures
        ({
            let c = rules.sample_color(x, y, width, height, camera);
            let u = rules.quotient(rules.of_count(x), rules.of_count(width));
            let v = rules.quotient(rules.of_count(y), rules.of_count(height));
            let turn = Scalar { key: TURN_KEY };
            let along = rules.sine(rules.sum(camera.position.x, rules.product(u, turn)));
            let across = rules.cosine(rules.sum(camera.position.y, rules.product(v, turn)));
            &&& Scalar::zero().le(c.y) && c.y.le(Scalar { key: TENTH_KEY })
            &&& Scalar::zero().le(c.z) && c.z.le(Scalar { key: TENTH_KEY })
            &&& along == Scalar::zero() ==> c.x == (Scalar { key: HALF_KEY })
            &&& along == Scalar::one() && across == Scalar::one() ==> c.x == Scalar::one()
            &&& along == Scalar::one() && across == Scalar::zero() ==> c.x == (Scalar { key: HALF_KEY })
        }),
{
    let tenth = Scalar { key: TENTH_KEY };
    let half = Scalar { key: HALF_KEY };
    let u = rules.quotient(rules.of_count(x), rules.of_count(width));
    let v = rules.quotient(rules.of_count(y), rules.of_count(height));
    let green = rules.cosine(rules.sum(camera.target.x, u)).magnitude();
    let blue = rules.sine(rules.sum(rules.product(camera.fov, Scalar { key: DEGREE_KEY }), v)).magnitude();
    assert(rules.product(tenth, Scalar::zero()) == Scalar::zero());
    assert(rules.product(tenth, Scalar::one()) == tenth);
    assert(Scalar::zero().le(green) && green.is_finite());
    assert(Scalar::zero().le(blue) && blue.is_finite());
    assert(rules.product(tenth, Scalar::zero()).le(rules.product(tenth, green)));
    assert(rules.product(tenth, green).le(rules.product(tenth, Scalar::one())));
    assert(rules.product(tenth, Scalar::zero()).le(rules.product(tenth, blue)));
    assert(rules.product(tenth, blue).le(rules.product(tenth, Scalar::one())));
    assert(rules.product(half, Scalar::zero()) == Scalar::zero());
    assert(rules.product(half, Scalar::one()) == half);
    assert(rules.sum(half, Scalar::zero()) == half);
}

/// Green is the same down every column, and blue along every row.
pub proof fn law_columns_share_green_and_rows_share_blue(
    rules: ArithRules,
    x: usize,
    y: usize,
    other_x: usize,
    other_y: usize,
    width: usize,
    height: usize,
    camera: CameraConfig,
)
    ensures
        rules.sample_color(x, y, width, height, camera).y == rules.sample_color(x, other_y, width, height, camera).y,
        rules.sample_color(x, y, width, height, camera).z == rules.sample_color(other_x, y, width, height, camera).z,
{
}

} // verus!
