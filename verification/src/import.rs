//! Scenes from documents: images, materials, meshes and nodes as a file holds
//! them, made into a scene.
use vstd::prelude::*;
use crate::arith::{plus, scaled, unit, Arith, ArithRules};
use crate::flatten::{moved_vector, SceneMath, SceneRules};
use crate::light::Light;
use crate::scalar::{Point3, Scalar, ONE_KEY};
use crate::scene::{white, Camera, Color, Material, Mesh, Node, Scene, Texture, Transform, Triangle, Vec2, Vec4, ONE_AND_HALF_KEY, SIXTY_KEY, THREE_KEY};
use crate::texture::{are_complete, missing_color};

verus! {

/// Key of the greatest byte.
pub const BYTE_MAX_KEY: i32 = 0x437f_0000;

/// Key of the end of the straight part of the sRGB curve.
pub const SRGB_KNEE_KEY: i32 = 0x3d25_aee6;

/// Key of the slope of the straight part of the sRGB curve.
pub const SRGB_SLOPE_KEY: i32 = 0x414e_b852;

/// Key of the offset of the sRGB curve.
pub const SRGB_OFFSET_KEY: i32 = 0x3d61_47ae;

/// Key of one more than the offset of the sRGB curve.
pub const SRGB_SCALE_KEY: i32 = 0x3f87_0a3d;

/// Key of the exponent of the sRGB curve.
pub const SRGB_GAMMA_KEY: i32 = 0x4019_999a;

/// Key of the degrees in a radian.
pub const DEGREES_KEY: i32 = 0x4265_2ee1;

/// Key of the lumens in a watt.
pub const LUMENS_KEY: i32 = 0x442a_c000;

/// Key of the candelas in a watt.
pub const CANDELAS_KEY: i32 = 0x4259_67d8;

/// How the pixels of an image are stored.
#[derive(Clone, Copy, PartialEq, Eq, Structural, Debug)]
pub enum PixelFormat {
    R8,
    R8G8,
    R8G8B8,
    R8G8B8A8,
    /// A format that is not understood.
    Other,
}

/// An image.
pub struct ImageData {
    pub width: u32,
    pub height: u32,
    pub format: PixelFormat,
    pub bytes: Vec<u8>,
}

/// A volume behind a surface.
#[derive(Clone, Copy, PartialEq, Eq, Structural, Debug)]
pub struct VolumeData {
    pub thickness_factor: Scalar,
    pub attenuation_distance: Scalar,
    pub attenuation_color: Color,
}

/// A material. Textures are named by the index of their image.
#[derive(Clone, Copy, PartialEq, Eq, Structural, Debug)]
pub struct MaterialData {
    pub base_color: Color,
    pub emissive_factor: Color,
    pub emissive_strength: Option<Scalar>,
    pub metallic: Scalar,
    pub roughness: Scalar,
    pub base_color_texture: Option<u32>,
    pub emissive_texture: Option<u32>,
    pub metallic_roughness_texture: Option<u32>,
    pub normal_texture: Option<u32>,
    pub occlusion_texture: Option<u32>,
    pub normal_scale: Option<Scalar>,
    /// Set for masked materials only.
    pub alpha_cutoff: Option<Scalar>,
    pub double_sided: bool,
    pub transmission: Option<Scalar>,
    pub ior: Option<Scalar>,
    pub volume: Option<VolumeData>,
}

/// A part of a mesh that has one material. Attributes that are absent are empty.
pub struct PrimitiveData {
    pub positions: Vec<Point3>,
    pub normals: Vec<Point3>,
    pub uvs: Vec<Vec2>,
    pub colors: Vec<Color>,
    pub tangents: Vec<Vec4>,
    pub indices: Vec<u32>,
    pub material: Option<u32>,
}

/// What a camera sees: the vertical field of view in radians, or none if it sees
/// in parallel.
#[derive(Clone, Copy, PartialEq, Eq, Structural, Debug)]
pub struct CameraData {
    pub yfov: Option<Scalar>,
}

/// The kinds of punctual lights.
#[derive(Clone, Copy, PartialEq, Eq, Structural, Debug)]
pub enum LightKind {
    Directional,
    Point,
    Spot,
}

/// A punctual light, its intensity in lux or candelas.
#[derive(Clone, Copy, PartialEq, Eq, Structural, Debug)]
pub struct LightData {
    pub kind: LightKind,
    pub color: Color,
    pub intensity: Scalar,
}

/// A place in a document.
pub struct NodeData {
    pub transform: Transform,
    pub children: Vec<u32>,
    pub mesh: Option<u32>,
    pub camera: Option<CameraData>,
    pub light: Option<LightData>,
}

/// What a file holds.
pub struct Document {
    pub images: Vec<ImageData>,
    pub materials: Vec<MaterialData>,
    /// The parts of each mesh.
    pub meshes: Vec<Vec<PrimitiveData>>,
    pub nodes: Vec<NodeData>,
    /// The roots of each scene.
    pub scenes: Vec<Vec<u32>>,
    pub default_scene: Option<usize>,
}

/// Why a document cannot be made into a scene.
#[derive(Clone, Copy, PartialEq, Eq, Structural, Debug)]
pub enum ImportError {
    /// The document has no scene.
    NoScene,
}

/// Number of bytes per pixel that are read.
pub open spec fn channels(format: PixelFormat) -> int {
    match format {
        PixelFormat::R8 => 1,
        PixelFormat::R8G8 => 2,
        PixelFormat::R8G8B8 => 3,
        PixelFormat::R8G8B8A8 => 4,
        PixelFormat::Other => 0,
    }
}

impl ImageData {
    /// Whether every pixel is there, and their number fits an index.
    pub open spec fn is_complete(self) -> bool {
        &&& self.width * self.height <= u32::MAX
        &&& self.width * self.height * channels(self.format) <= self.bytes@.len()
    }
}

/// Whether an image is used as data rather than as color.
pub open spec fn is_linear(materials: Seq<MaterialData>, image: int) -> bool {
    exists|m: int|
        0 <= m < materials.len() && ((#[trigger] materials[m]).metallic_roughness_texture == Some(image as u32)
            || materials[m].normal_texture == Some(image as u32) || materials[m].occlusion_texture == Some(
            image as u32,
        ))
}

/// The node at `i` and all under it are there, and no path of children is longer
/// than `fuel` nodes.
pub open spec fn is_branch(nodes: Seq<NodeData>, i: int, fuel: nat) -> bool
    decreases fuel,
{
    &&& fuel > 0
    &&& 0 <= i < nodes.len()
    &&& forall|k: int|
        #![trigger nodes[i].children@[k]]
        0 <= k < nodes[i].children@.len() ==> is_branch(nodes, nodes[i].children@[k] as int, (fuel - 1) as nat)
}

/// Some nodes and all under them are there, and no path is longer than `fuel`.
pub open spec fn are_branches(nodes: Seq<NodeData>, list: Seq<u32>, fuel: nat) -> bool {
    forall|k: int| #![trigger list[k]] 0 <= k < list.len() ==> is_branch(nodes, list[k] as int, fuel)
}

/// Number of parts of the first `m` meshes.
pub open spec fn parts_before(meshes: Seq<Vec<PrimitiveData>>, m: nat) -> nat
    decreases m,
{
    if m == 0 {
        0
    } else {
        parts_before(meshes, (m - 1) as nat) + meshes[m - 1]@.len()
    }
}

impl Document {
    /// The scene that is shown: the default one, else the first.
    pub open spec fn shown(self) -> Option<int> {
        match self.default_scene {
            Some(i) => Some(i as int),
            None => if self.scenes@.len() > 0 {
                Some(0)
            } else {
                None
            },
        }
    }

    /// Whether all that the document refers to is there, and nodes form trees.
    pub open spec fn valid(self) -> bool {
        &&& forall|i: int| 0 <= i < self.images@.len() ==> (#[trigger] self.images@[i]).is_complete()
        &&& self.images@.len() <= u32::MAX
        &&& parts_before(self.meshes@, self.meshes@.len()) <= u32::MAX
        &&& forall|i: int|
            0 <= i < self.nodes@.len() ==> ((#[trigger] self.nodes@[i]).mesh matches Some(m) ==> m < self.meshes@.len())
        &&& (self.default_scene matches Some(i) ==> i < self.scenes@.len())
        &&& (self.shown() matches Some(s) ==> are_branches(self.nodes@, self.scenes@[s]@, self.nodes@.len()))
    }
}

impl ArithRules {
    /// A byte as a number from 0 to 1.
    pub open spec fn byte_fraction(self, b: u8) -> Scalar {
        self.quotient(self.of_count(b as usize), Scalar { key: BYTE_MAX_KEY })
    }

    /// A byte on the sRGB curve as linear light.
    pub open spec fn srgb_to_linear(self, b: u8) -> Scalar {
        let c = self.byte_fraction(b);
        if c.le(Scalar { key: SRGB_KNEE_KEY }) {
            self.quotient(c, Scalar { key: SRGB_SLOPE_KEY })
        } else {
            self.power(
                self.quotient(self.sum(c, Scalar { key: SRGB_OFFSET_KEY }), Scalar { key: SRGB_SCALE_KEY }),
                Scalar { key: SRGB_GAMMA_KEY },
            )
        }
    }

    /// A byte of an image: data as it is, color as linear light.
    pub open spec fn decoded(self, linear: bool, b: u8) -> Scalar {
        if linear {
            self.byte_fraction(b)
        } else {
            self.srgb_to_linear(b)
        }
    }

    /// A pixel of an image.
    pub open spec fn image_pixel(self, image: ImageData, linear: bool, i: int) -> Color {
        let b = image.bytes@;
        match image.format {
            PixelFormat::R8 => {
                let l = self.decoded(linear, b[i]);
                Point3 { x: l, y: l, z: l }
            },
            PixelFormat::R8G8 => Point3 {
                x: self.decoded(linear, b[i * 2]),
                y: self.decoded(linear, b[i * 2 + 1]),
                z: Scalar::zero(),
            },
            PixelFormat::R8G8B8 => Point3 {
                x: self.decoded(linear, b[i * 3]),
                y: self.decoded(linear, b[i * 3 + 1]),
                z: self.decoded(linear, b[i * 3 + 2]),
            },
            PixelFormat::R8G8B8A8 => Point3 {
                x: self.decoded(linear, b[i * 4]),
                y: self.decoded(linear, b[i * 4 + 1]),
                z: self.decoded(linear, b[i * 4 + 2]),
            },
            PixelFormat::Other => missing_color(),
        }
    }

    /// Whether a texture is an image, decoded.
    pub open spec fn is_texture_of(self, t: Texture, image: ImageData, linear: bool) -> bool {
        &&& t.width == image.width
        &&& t.height == image.height
        &&& t.pixels@ == Seq::new(
            (image.width * image.height) as nat,
            |i: int| self.image_pixel(image, linear, i),
        )
    }

    /// A material of a scene. What a document leaves out has its usual value.
    pub open spec fn material_of(self, d: MaterialData) -> Material {
        let volume = match d.volume {
            Some(v) => v,
            None => VolumeData {
                thickness_factor: Scalar::zero(),
                attenuation_distance: Scalar::infinity(),
                attenuation_color: white(),
            },
        };
        Material {
            albedo: d.base_color,
            emissive: self.scaled(
                d.emissive_factor,
                match d.emissive_strength {
                    Some(s) => s,
                    None => Scalar { key: ONE_KEY },
                },
            ),
            albedo_texture: d.base_color_texture,
            emissive_texture: d.emissive_texture,
            metallic: d.metallic,
            roughness: d.roughness,
            metallic_roughness_texture: d.metallic_roughness_texture,
            normal_texture: d.normal_texture,
            normal_scale: match d.normal_scale {
                Some(s) => s,
                None => Scalar { key: ONE_KEY },
            },
            alpha_cutoff: d.alpha_cutoff,
            double_sided: d.double_sided,
            transmission: match d.transmission {
                Some(t) => t,
                None => Scalar::zero(),
            },
            ior: match d.ior {
                Some(i) => i,
                None => Scalar { key: ONE_AND_HALF_KEY },
            },
            thickness_factor: volume.thickness_factor,
            attenuation_distance: volume.attenuation_distance,
            attenuation_color: volume.attenuation_color,
        }
    }

    /// Whether a mesh is a part of a mesh of a document: normals made unit length,
    /// indices three by three, the first material if it names none.
    pub open spec fn is_mesh_of_part(self, mesh: Mesh, part: PrimitiveData) -> bool {
        &&& mesh.vertices@ == part.positions@
        &&& mesh.normals@ == part.normals@.map_values(|n: Point3| self.unit(n))
        &&& mesh.uvs@ == part.uvs@
        &&& mesh.colors@ == part.colors@
        &&& mesh.tangents@ == part.tangents@
        &&& mesh.triangles@ == triples(part.indices@)
        &&& mesh.material == (match part.material {
            Some(m) => m,
            None => 0,
        })
    }
}

/// Indices, three by three; what is left over is dropped.
pub open spec fn triples(indices: Seq<u32>) -> Seq<Triangle> {
    Seq::new(
        indices.len() / 3,
        |i: int| Triangle { v0: indices[3 * i], v1: indices[3 * i + 1], v2: indices[3 * i + 2] },
    )
}

/// The direction in which cameras look and lights shine.
pub open spec fn forward_axis() -> Point3 {
    Point3 { x: Scalar::zero(), y: Scalar::zero(), z: Scalar::one().negated() }
}

/// Cameras and lights, in the order in which they are found.
#[verifier::ext_equal]
pub struct Placed {
    pub cameras: Seq<Camera>,
    pub lights: Seq<Light>,
}

impl Placed {
    /// These, then others.
    pub open spec fn then_also(self, other: Placed) -> Placed {
        Placed { cameras: self.cameras + other.cameras, lights: self.lights + other.lights }
    }
}

impl SceneRules {
    /// A camera at a place.
    pub open spec fn camera_at(self, world: Transform, camera: CameraData) -> Camera {
        let position = world.w.direction();
        Camera {
            position,
            target: self.arith.plus(position, self.vector(world, forward_axis())),
            fov: match camera.yfov {
                Some(y) => self.arith.product(y, Scalar { key: DEGREES_KEY }),
                None => Scalar { key: SIXTY_KEY },
            },
        }
    }

    /// A light at a place, its intensity in watts.
    pub open spec fn light_at(self, world: Transform, light: LightData) -> Light {
        let position = world.w.direction();
        let direction = self.arith.unit(self.vector(world, forward_axis()));
        let watts = self.arith.quotient(light.intensity, Scalar { key: CANDELAS_KEY });
        match light.kind {
            LightKind::Directional => Light::Directional {
                direction,
                color: light.color,
                intensity: self.arith.quotient(light.intensity, Scalar { key: LUMENS_KEY }),
            },
            LightKind::Point => Light::Point { position, color: light.color, intensity: watts },
            LightKind::Spot => Light::Spot { position, direction, color: light.color, intensity: watts },
        }
    }

    /// What is at a node itself.
    pub open spec fn own(self, node: NodeData, world: Transform) -> Placed {
        Placed {
            cameras: match node.camera {
                Some(c) => seq![self.camera_at(world, c)],
                None => Seq::empty(),
            },
            lights: match node.light {
                Some(l) => seq![self.light_at(world, l)],
                None => Seq::empty(),
            },
        }
    }

    /// What is at a node and under it: first its own, then its children's in order.
    pub open spec fn placed_at(self, nodes: Seq<NodeData>, i: int, parent: Transform, fuel: nat) -> Placed
        decreases fuel, 0int, 1int,
    {
        if fuel == 0 {
            Placed { cameras: Seq::empty(), lights: Seq::empty() }
        } else {
            let world = (self.compose)(parent, nodes[i].transform);
            self.own(nodes[i], world).then_also(
                self.placed_under(nodes, nodes[i].children@, world, (fuel - 1) as nat, nodes[i].children@.len()),
            )
        }
    }

    /// What is at and under the first `k` of some nodes.
    pub open spec fn placed_under(
        self,
        nodes: Seq<NodeData>,
        list: Seq<u32>,
        world: Transform,
        fuel: nat,
        k: nat,
    ) -> Placed
        decreases fuel, k, 2int,
    {
        if k == 0 {
            Placed { cameras: Seq::empty(), lights: Seq::empty() }
        } else {
            self.placed_under(nodes, list, world, fuel, (k - 1) as nat).then_also(
                self.placed_at(nodes, list[k - 1] as int, world, fuel),
            )
        }
    }

    /// What a scene shows.
    pub open spec fn placed_in(self, doc: Document, scene: int) -> Placed {
        self.placed_under(
            doc.nodes@,
            doc.scenes@[scene]@,
            Transform::identity(),
            doc.nodes@.len(),
            doc.scenes@[scene]@.len(),
        )
    }
}

/// Whether a node is that of a document, with each mesh replaced by its parts.
pub open spec fn is_node_of(node: Node, data: NodeData, meshes: Seq<Vec<PrimitiveData>>) -> bool {
    &&& node.transform == data.transform
    &&& node.children@ == data.children@
    &&& node.meshes@ == (match data.mesh {
        Some(m) => Seq::new(meshes[m as int]@.len(), |p: int| (parts_before(meshes, m as nat) + p) as u32),
        None => Seq::empty(),
    })
}

/// A list with the same items.
fn copy_all<T: Copy>(v: &Vec<T>) -> (r: Vec<T>)
    ensures
        r@ == v@,
{
    let mut out: Vec<T> = Vec::new();
    let mut i: usize = 0;
    while i < v.len()
        invariant
            i <= v.len(),
            out.len() == i,
            forall|j: int| 0 <= j < i ==> #[trigger] out@[j] == v@[j],
        decreases v.len() - i,
    {
        out.push(v[i]);
        i = i + 1;
    }
    assert(out@ =~= v@);
    out
}

/// A byte on the sRGB curve as linear light.
pub fn srgb_u8_to_linear<M: Arith>(math: &M, v: u8) -> (r: Scalar)
    ensures
        forall|rules: ArithRules| #[trigger] rules.describe(*math) ==> r == rules.srgb_to_linear(v),
{
    let c = math.quotient(math.of_count(v as usize), Scalar { key: BYTE_MAX_KEY });
    if c.le(Scalar { key: SRGB_KNEE_KEY }) {
        math.quotient(c, Scalar { key: SRGB_SLOPE_KEY })
    } else {
        math.power(
            math.quotient(math.sum(c, Scalar { key: SRGB_OFFSET_KEY }), Scalar { key: SRGB_SCALE_KEY }),
            Scalar { key: SRGB_GAMMA_KEY },
        )
    }
}

/// A byte of an image: data as it is, color as linear light.
fn decode<M: Arith>(math: &M, linear: bool, b: u8) -> (r: Scalar)
    ensures
        forall|rules: ArithRules| #[trigger] rules.describe(*math) ==> r == rules.decoded(linear, b),
{
    if linear {
        math.quotient(math.of_count(b as usize), Scalar { key: BYTE_MAX_KEY })
    } else {
        srgb_u8_to_linear(math, b)
    }
}

/// A pixel of an image.
fn read_pixel<M: Arith>(math: &M, image: &ImageData, linear: bool, i: usize) -> (r: Color)
    requires
        image.is_complete(),
        i < image.width * image.height,
    ensures
        forall|rules: ArithRules| #[trigger] rules.describe(*math) ==> r == rules.image_pixel(*image, linear, i as int),
{
    let b = &image.bytes;
    proof {
        let n = image.width * image.height;
        let k = channels(image.format);
        assert(i * k + k <= n * k) by (nonlinear_arith)
            requires
                i + 1 <= n,
                k >= 0,
        ;
        assert(image.bytes.len() == image.bytes@.len());
    }
    match image.format {
        PixelFormat::R8 => {
            let l = decode(math, linear, b[i]);
            Point3 { x: l, y: l, z: l }
        },
        PixelFormat::R8G8 => Point3 {
            x: decode(math, linear, b[i * 2]),
            y: decode(math, linear, b[i * 2 + 1]),
            z: Scalar::zero(),
        },
        PixelFormat::R8G8B8 => Point3 {
            x: decode(math, linear, b[i * 3]),
            y: decode(math, linear, b[i * 3 + 1]),
            z: decode(math, linear, b[i * 3 + 2]),
        },
        PixelFormat::R8G8B8A8 => Point3 {
            x: decode(math, linear, b[i * 4]),
            y: decode(math, linear, b[i * 4 + 1]),
            z: decode(math, linear, b[i * 4 + 2]),
        },
        PixelFormat::Other => missing_color(),
    }
}

/// An image, decoded.
pub fn decode_image<M: Arith>(math: &M, image: &ImageData, linear: bool) -> (r: Texture)
    requires
        image.is_complete(),
    ensures
        r.is_complete(),
        forall|rules: ArithRules| #[trigger] rules.describe(*math) ==> rules.is_texture_of(r, *image, linear),
{
    assert(0 <= image.width * image.height) by (nonlinear_arith);
    let n: usize = (image.width * image.height) as usize;
    let mut pixels: Vec<Color> = Vec::new();
    let mut i: usize = 0;
    while i < n
        invariant
            i <= n,
            n == image.width * image.height,
            image.is_complete(),
            pixels.len() == i,
            forall|rules: ArithRules, j: int|
                #![trigger rules.describe(*math), pixels@[j]]
                rules.describe(*math) && 0 <= j < i ==> pixels@[j] == rules.image_pixel(*image, linear, j),
        decreases n - i,
    {
        let c = read_pixel(math, image, linear, i);
        pixels.push(c);
        i = i + 1;
    }
    proof {
        assert forall|rules: ArithRules| #[trigger] rules.describe(*math) implies pixels@ == Seq::new(
            (image.width * image.height) as nat,
            |i: int| rules.image_pixel(*image, linear, i),
        ) by {
            assert(pixels@ =~= Seq::new(
                (image.width * image.height) as nat,
                |i: int| rules.image_pixel(*image, linear, i),
            ));
        }
    }
    Texture { width: image.width, height: image.height, pixels }
}

/// Whether an image is used as data rather than as color.
fn find_linear(materials: &Vec<MaterialData>, image: u32) -> (r: bool)
    ensures
        r == is_linear(materials@, image as int),
{
    let mut m: usize = 0;
    while m < materials.len()
        invariant
            m <= materials.len(),
            forall|j: int|
                0 <= j < m ==> (#[trigger] materials@[j]).metallic_roughness_texture != Some(image)
                    && materials@[j].normal_texture != Some(image) && materials@[j].occlusion_texture != Some(image),
        decreases materials.len() - m,
    {
        let d = materials[m];
        if names(d.metallic_roughness_texture, image) || names(d.normal_texture, image) || names(
            d.occlusion_texture,
            image,
        ) {
            assert(materials@[m as int] == d);
            return true;
        }
        m = m + 1;
    }
    false
}

/// Whether a texture is an image.
fn names(texture: Option<u32>, image: u32) -> (r: bool)
    ensures
        r == (texture == Some(image)),
{
    match texture {
        Some(t) => t == image,
        None => false,
    }
}

/// A material of a scene.
pub fn import_material<M: Arith>(math: &M, d: &MaterialData) -> (r: Material)
    ensures
        forall|rules: ArithRules| #[trigger] rules.describe(*math) ==> r == rules.material_of(*d),
{
    let one = Scalar { key: ONE_KEY };
    let strength = match d.emissive_strength {
        Some(s) => s,
        None => one,
    };
    let volume = match d.volume {
        Some(v) => v,
        None => VolumeData {
            thickness_factor: Scalar::zero(),
            attenuation_distance: Scalar::infinity(),
            attenuation_color: white(),
        },
    };
    Material {
        albedo: d.base_color,
        emissive: scaled(math, d.emissive_factor, strength),
        albedo_texture: d.base_color_texture,
        emissive_texture: d.emissive_texture,
        metallic: d.metallic,
        roughness: d.roughness,
        metallic_roughness_texture: d.metallic_roughness_texture,
        normal_texture: d.normal_texture,
        normal_scale: match d.normal_scale {
            Some(s) => s,
            None => one,
        },
        alpha_cutoff: d.alpha_cutoff,
        double_sided: d.double_sided,
        transmission: match d.transmission {
            Some(t) => t,
            None => Scalar::zero(),
        },
        ior: match d.ior {
            Some(i) => i,
            None => Scalar { key: ONE_AND_HALF_KEY },
        },
        thickness_factor: volume.thickness_factor,
        attenuation_distance: volume.attenuation_distance,
        attenuation_color: volume.attenuation_color,
    }
}

/// Vectors, each made unit length.
fn unit_all<M: Arith>(math: &M, v: &Vec<Point3>) -> (r: Vec<Point3>)
    ensures
        r.len() == v.len(),
        forall|rules: ArithRules| #[trigger]
            rules.describe(*math) ==> r@ == v@.map_values(|n: Point3| rules.unit(n)),
{
    let mut out: Vec<Point3> = Vec::new();
    let mut i: usize = 0;
    while i < v.len()
        invariant
            i <= v.len(),
            out.len() == i,
            forall|rules: ArithRules, j: int|
                #![trigger rules.describe(*math), out@[j]]
                rules.describe(*math) && 0 <= j < i ==> out@[j] == rules.unit(v@[j]),
        decreases v.len() - i,
    {
        let n = unit(math, v[i]);
        out.push(n);
        i = i + 1;
    }
    proof {
        assert forall|rules: ArithRules| #[trigger] rules.describe(*math) implies out@ == v@.map_values(
            |n: Point3| rules.unit(n),
        ) by {
            assert(out@ =~= v@.map_values(|n: Point3| rules.unit(n)));
        }
    }
    out
}

/// Indices, three by three.
fn make_triangles(indices: &Vec<u32>) -> (r: Vec<Triangle>)
    ensures
        r@ == triples(indices@),
{
    let n: usize = indices.len() / 3;
    let mut out: Vec<Triangle> = Vec::new();
    let mut i: usize = 0;
    while i < n
        invariant
            i <= n,
            n == indices.len() / 3,
            out.len() == i,
            forall|j: int| 0 <= j < i ==> #[trigger] out@[j] == triples(indices@)[j],
        decreases n - i,
    {
        out.push(Triangle { v0: indices[3 * i], v1: indices[3 * i + 1], v2: indices[3 * i + 2] });
        i = i + 1;
    }
    assert(out@ =~= triples(indices@));
    out
}

/// A mesh from a part of a mesh of a document.
pub fn import_part<M: Arith>(math: &M, part: &PrimitiveData) -> (r: Mesh)
    ensures
        forall|rules: ArithRules| #[trigger] rules.describe(*math) ==> rules.is_mesh_of_part(r, *part),
{
    Mesh {
        vertices: copy_all(&part.positions),
        normals: unit_all(math, &part.normals),
        uvs: copy_all(&part.uvs),
        colors: copy_all(&part.colors),
        tangents: copy_all(&part.tangents),
        triangles: make_triangles(&part.indices),
        material: match part.material {
            Some(m) => m,
            None => 0,
        },
    }
}

/// The cameras and lights of a node and of all under it, in order.
fn place<M: SceneMath>(
    math: &M,
    nodes: &Vec<NodeData>,
    i: usize,
    parent: &Transform,
    fuel: usize,
    cameras: &mut Vec<Camera>,
    lights: &mut Vec<Light>,
)
    requires
        is_branch(nodes@, i as int, fuel as nat),
    ensures
        forall|rules: SceneRules| #[trigger]
            rules.describe(*math) ==> {
                let p = rules.placed_at(nodes@, i as int, *parent, fuel as nat);
                final(cameras)@ == old(cameras)@ + p.cameras && final(lights)@ == old(lights)@ + p.lights
            },
    decreases fuel, 0int,
{
    let node = &nodes[i];
    let world = math.compose(parent, &node.transform);
    let ghost cams0 = cameras@;
    let ghost lights0 = lights@;
    if let Some(c) = node.camera {
        let position = world.w.direction();
        let dir = moved_vector(
            math,
            &world,
            Point3 { x: Scalar::zero(), y: Scalar::zero(), z: Scalar::one().negated() },
        );
        let fov = match c.yfov {
            Some(y) => math.product(y, Scalar { key: DEGREES_KEY }),
            None => Scalar { key: SIXTY_KEY },
        };
        cameras.push(Camera { position, target: plus(math, position, dir), fov });
    }
    if let Some(l) = node.light {
        lights.push(make_light(math, &world, l));
    }
    proof {
        assert forall|rules: SceneRules| #[trigger] rules.describe(*math) implies cameras@ == cams0 + rules.own(
            *node,
            world,
        ).cameras && lights@ == lights0 + rules.own(*node, world).lights && world == (rules.compose)(
            *parent,
            node.transform,
        ) by {
            assert(rules.arith.describe(*math));
            assert(cameras@ =~= cams0 + rules.own(*node, world).cameras);
            assert(lights@ =~= lights0 + rules.own(*node, world).lights);
        }
    }
    place_all(math, nodes, &node.children, &world, fuel - 1, cameras, lights);
    proof {
        assert forall|rules: SceneRules| #[trigger] rules.describe(*math) implies ({
            let p = rules.placed_at(nodes@, i as int, *parent, fuel as nat);
            cameras@ == cams0 + p.cameras && lights@ == lights0 + p.lights
        }) by {
            let p = rules.placed_at(nodes@, i as int, *parent, fuel as nat);
            let own = rules.own(*node, world);
            let under = rules.placed_under(
                nodes@,
                node.children@,
                world,
                (fuel - 1) as nat,
                node.children@.len(),
            );
            assert(p == own.then_also(under));
            assert(cameras@ =~= cams0 + p.cameras);
            assert(lights@ =~= lights0 + p.lights);
        }
    }
}

/// A light at a place.
fn make_light<M: SceneMath>(math: &M, world: &Transform, l: LightData) -> (r: Light)
    ensures
        forall|rules: SceneRules| #[trigger] rules.describe(*math) ==> r == rules.light_at(*world, l),
{
    let position = world.w.direction();
    let direction = unit(
        math,
        moved_vector(math, world, Point3 { x: Scalar::zero(), y: Scalar::zero(), z: Scalar::one().negated() }),
    );
    let watts = math.quotient(l.intensity, Scalar { key: CANDELAS_KEY });
    proof {
        assert forall|rules: SceneRules| #[trigger] rules.describe(*math) implies rules.arith.describe(*math) by {}
    }
    match l.kind {
        LightKind::Directional => Light::Directional {
            direction,
            color: l.color,
            intensity: math.quotient(l.intensity, Scalar { key: LUMENS_KEY }),
        },
        LightKind::Point => Light::Point { position, color: l.color, intensity: watts },
        LightKind::Spot => Light::Spot { position, direction, color: l.color, intensity: watts },
    }
}

/// The cameras and lights of some nodes and of all under them, in order.
fn place_all<M: SceneMath>(
    math: &M,
    nodes: &Vec<NodeData>,
    list: &Vec<u32>,
    world: &Transform,
    fuel: usize,
    cameras: &mut Vec<Camera>,
    lights: &mut Vec<Light>,
)
    requires
        are_branches(nodes@, list@, fuel as nat),
    ensures
        forall|rules: SceneRules| #[trigger]
            rules.describe(*math) ==> {
                let p = rules.placed_under(nodes@, list@, *world, fuel as nat, list@.len());
                final(cameras)@ == old(cameras)@ + p.cameras && final(lights)@ == old(lights)@ + p.lights
            },
    decreases fuel, 1int,
{
    let ghost cams0 = cameras@;
    let ghost lights0 = lights@;
    let mut k: usize = 0;
    assert(cameras@ =~= cams0 + Seq::<Camera>::empty());
    assert(lights@ =~= lights0 + Seq::<Light>::empty());
    while k < list.len()
        invariant
            k <= list.len(),
            are_branches(nodes@, list@, fuel as nat),
            forall|rules: SceneRules| #[trigger]
                rules.describe(*math) ==> {
                    let p = rules.placed_under(nodes@, list@, *world, fuel as nat, k as nat);
                    cameras@ == cams0 + p.cameras && lights@ == lights0 + p.lights
                },
        decreases list.len() - k,
    {
        let child: u32 = list[k];
        assert(list@[k as int] == child);
        let ghost cams1 = cameras@;
        let ghost lights1 = lights@;
        place(math, nodes, child as usize, world, fuel, cameras, lights);
        k = k + 1;
        proof {
            assert forall|rules: SceneRules| #[trigger] rules.describe(*math) implies ({
                let p = rules.placed_under(nodes@, list@, *world, fuel as nat, k as nat);
                cameras@ == cams0 + p.cameras && lights@ == lights0 + p.lights
            }) by {
                let p = rules.placed_under(nodes@, list@, *world, fuel as nat, k as nat);
                let before = rules.placed_under(nodes@, list@, *world, fuel as nat, (k - 1) as nat);
                let one = rules.placed_at(nodes@, child as int, *world, fuel as nat);
                assert(p == before.then_also(one));
                assert(cameras@ =~= cams0 + p.cameras);
                assert(lights@ =~= lights0 + p.lights);
            }
        }
    }
}

/// Whether meshes are the parts of the first meshes of a document, in order.
pub open spec fn are_parts(rules: ArithRules, meshes: Seq<Mesh>, doc: Seq<Vec<PrimitiveData>>, m: nat) -> bool {
    &&& meshes.len() == parts_before(doc, m)
    &&& forall|k: int, p: int|
        #![trigger doc[k]@[p]]
        0 <= k < m && 0 <= p < doc[k]@.len() ==> rules.is_mesh_of_part(
            meshes[parts_before(doc, k as nat) + p],
            doc[k]@[p],
        )
}

proof fn lemma_parts_grow(doc: Seq<Vec<PrimitiveData>>, a: nat, b: nat)
    requires
        a <= b,
    ensures
        parts_before(doc, a) <= parts_before(doc, b),
    decreases b,
{
    if a < b {
        lemma_parts_grow(doc, a, (b - 1) as nat);
    }
}

/// The parts of all meshes, in order, and the first part of each mesh.
fn import_meshes<M: Arith>(math: &M, doc: &Vec<Vec<PrimitiveData>>) -> (r: (Vec<Mesh>, Vec<u32>))
    requires
        parts_before(doc@, doc@.len()) <= u32::MAX,
    ensures
        r.1.len() == doc.len(),
        forall|m: int| 0 <= m < doc.len() ==> #[trigger] r.1@[m] == parts_before(doc@, m as nat),
        r.0.len() == parts_before(doc@, doc@.len()),
        forall|rules: ArithRules| #[trigger] rules.describe(*math) ==> are_parts(rules, r.0@, doc@, doc@.len()),
{
    let mut meshes: Vec<Mesh> = Vec::new();
    let mut first: Vec<u32> = Vec::new();
    let mut m: usize = 0;
    while m < doc.len()
        invariant
            m <= doc.len(),
            parts_before(doc@, doc@.len()) <= u32::MAX,
            first.len() == m,
            forall|k: int| 0 <= k < m ==> #[trigger] first@[k] == parts_before(doc@, k as nat),
            meshes.len() == parts_before(doc@, m as nat),
            forall|rules: ArithRules| #[trigger] rules.describe(*math) ==> are_parts(rules, meshes@, doc@, m as nat),
        decreases doc.len() - m,
    {
        let parts = &doc[m];
        let ghost start = meshes@.len();
        let ghost before = meshes@;
        proof {
            lemma_parts_grow(doc@, m as nat, doc@.len());
        }
        first.push(meshes.len() as u32);
        let mut p: usize = 0;
        while p < parts.len()
            invariant
                p <= parts.len(),
                m < doc.len(),
                parts@ == doc@[m as int]@,
                start == before.len(),
                start == parts_before(doc@, m as nat),
                meshes.len() == start + p,
                meshes@.take(start as int) == before,
                forall|rules: ArithRules, q: int|
                    #![trigger rules.describe(*math), parts@[q]]
                    rules.describe(*math) && 0 <= q < p ==> rules.is_mesh_of_part(meshes@[start + q], parts@[q]),
            decreases parts.len() - p,
        {
            let mesh = import_part(math, &parts[p]);
            let ghost old_meshes = meshes@;
            meshes.push(mesh);
            p = p + 1;
            proof {
                assert(meshes@.take(start as int) =~= old_meshes.take(start as int));
                assert forall|rules: ArithRules, q: int|
                    #![trigger rules.describe(*math), parts@[q]]
                    rules.describe(*math) && 0 <= q < p implies rules.is_mesh_of_part(meshes@[start + q], parts@[q]) by {
                    if q < p - 1 {
                        assert(meshes@[start + q] == old_meshes[start + q]);
                    }
                }
            }
        }
        m = m + 1;
        proof {
            assert forall|rules: ArithRules| #[trigger] rules.describe(*math) implies are_parts(
                rules,
                meshes@,
                doc@,
                m as nat,
            ) by {
                assert forall|k: int, q: int|
                    #![trigger doc@[k]@[q]]
                    0 <= k < m && 0 <= q < doc@[k]@.len() implies rules.is_mesh_of_part(
                    meshes@[parts_before(doc@, k as nat) + q],
                    doc@[k]@[q],
                ) by {
                    if k < m - 1 {
                        lemma_parts_grow(doc@, (k + 1) as nat, (m - 1) as nat);
                        let j = parts_before(doc@, k as nat) + q;
                        assert(meshes@.take(start as int)[j] == before[j]);
                    }
                }
            }
        }
    }
    (meshes, first)
}

/// The nodes of a document, with each mesh replaced by its parts.
fn import_nodes(nodes: &Vec<NodeData>, meshes: &Vec<Vec<PrimitiveData>>, first: &Vec<u32>) -> (r: Vec<Node>)
    requires
        forall|i: int|
            0 <= i < nodes@.len() ==> ((#[trigger] nodes@[i]).mesh matches Some(m) ==> m < meshes@.len()),
        first.len() == meshes.len(),
        forall|m: int| 0 <= m < meshes.len() ==> #[trigger] first@[m] == parts_before(meshes@, m as nat),
        parts_before(meshes@, meshes@.len()) <= u32::MAX,
    ensures
        r.len() == nodes.len(),
        forall|i: int| 0 <= i < r.len() ==> is_node_of(#[trigger] r@[i], nodes@[i], meshes@),
{
    let mut out: Vec<Node> = Vec::new();
    let mut i: usize = 0;
    while i < nodes.len()
        invariant
            i <= nodes.len(),
            out.len() == i,
            forall|i: int|
                0 <= i < nodes@.len() ==> ((#[trigger] nodes@[i]).mesh matches Some(m) ==> m < meshes@.len()),
            first.len() == meshes.len(),
            forall|m: int| 0 <= m < meshes.len() ==> #[trigger] first@[m] == parts_before(meshes@, m as nat),
            parts_before(meshes@, meshes@.len()) <= u32::MAX,
            forall|j: int| 0 <= j < i ==> is_node_of(#[trigger] out@[j], nodes@[j], meshes@),
        decreases nodes.len() - i,
    {
        let data = &nodes[i];
        assert(nodes@[i as int] == *data);
        let mut list: Vec<u32> = Vec::new();
        if let Some(m) = data.mesh {
            let start: u32 = first[m as usize];
            let n: usize = meshes[m as usize].len();
            proof {
                lemma_parts_grow(meshes@, (m + 1) as nat, meshes@.len());
            }
            let mut p: usize = 0;
            while p < n
                invariant
                    p <= n,
                    start + n <= u32::MAX,
                    list.len() == p,
                    forall|q: int| 0 <= q < p ==> #[trigger] list@[q] == start + q,
                decreases n - p,
            {
                list.push(start + p as u32);
                p = p + 1;
            }
            assert(list@ =~= Seq::new(
                meshes@[m as int]@.len(),
                |p: int| (parts_before(meshes@, m as nat) + p) as u32,
            ));
        } else {
            assert(list@ =~= Seq::<u32>::empty());
        }
        out.push(Node { transform: data.transform, children: copy_all(&data.children), meshes: list });
        i = i + 1;
    }
    out
}

/// The images of a document, decoded: as data where a material uses them so, else
/// as color.
fn import_textures<M: Arith>(math: &M, doc: &Document) -> (r: Vec<Texture>)
    requires
        doc.valid(),
    ensures
        r.len() == doc.images.len(),
        are_complete(r@),
        forall|rules: ArithRules, i: int|
            #![trigger rules.describe(*math), r@[i]]
            rules.describe(*math) && 0 <= i < r.len() ==> rules.is_texture_of(
                r@[i],
                doc.images@[i],
                is_linear(doc.materials@, i),
            ),
{
    let mut textures: Vec<Texture> = Vec::new();
    let mut i: usize = 0;
    while i < doc.images.len()
        invariant
            doc.valid(),
            i <= doc.images.len(),
            textures.len() == i,
            are_complete(textures@),
            forall|rules: ArithRules, j: int|
                #![trigger rules.describe(*math), textures@[j]]
                rules.describe(*math) && 0 <= j < i ==> rules.is_texture_of(
                    textures@[j],
                    doc.images@[j],
                    is_linear(doc.materials@, j),
                ),
        decreases doc.images.len() - i,
    {
        let image = &doc.images[i];
        assert(doc.images@[i as int].is_complete());
        let linear: bool = find_linear(&doc.materials, i as u32);
        let t = decode_image(math, image, linear);
        textures.push(t);
        i = i + 1;
    }
    textures
}

/// The materials of a document.
fn import_materials<M: Arith>(math: &M, list: &Vec<MaterialData>) -> (r: Vec<Material>)
    ensures
        r.len() == list.len(),
        forall|rules: ArithRules, i: int|
            #![trigger rules.describe(*math), r@[i]]
            rules.describe(*math) && 0 <= i < r.len() ==> r@[i] == rules.material_of(list@[i]),
{
    let mut out: Vec<Material> = Vec::new();
    let mut i: usize = 0;
    while i < list.len()
        invariant
            i <= list.len(),
            out.len() == i,
            forall|rules: ArithRules, j: int|
                #![trigger rules.describe(*math), out@[j]]
                rules.describe(*math) && 0 <= j < i ==> out@[j] == rules.material_of(list@[j]),
        decreases list.len() - i,
    {
        let m = import_material(math, &list[i]);
        out.push(m);
        i = i + 1;
    }
    out
}

impl SceneRules {
    /// Whether a scene is what a document shows.
    pub open spec fn is_import(self, scene: Scene, doc: Document, shown: int) -> bool {
        let placed = self.placed_in(doc, shown);
        &&& scene.textures@.len() == doc.images@.len()
        &&& forall|i: int|
            0 <= i < scene.textures@.len() ==> self.arith.is_texture_of(
                #[trigger] scene.textures@[i],
                doc.images@[i],
                is_linear(doc.materials@, i),
            )
        &&& scene.materials@ == doc.materials@.map_values(|d: MaterialData| self.arith.material_of(d))
        &&& are_parts(self.arith, scene.meshes@, doc.meshes@, doc.meshes@.len())
        &&& scene.lights@ == placed.lights
        &&& scene.cameras@ == (if placed.cameras.len() == 0 {
            seq![default_camera()]
        } else {
            placed.cameras
        })
    }
}

/// The camera of a scene that has none.
pub open spec fn default_camera() -> Camera {
    Camera {
        position: Point3 {
            x: Scalar::zero(),
            y: Scalar::zero(),
            z: Scalar { key: THREE_KEY },
        },
        target: Point3::origin(),
        fov: Scalar { key: SIXTY_KEY },
    }
}

/// Makes a scene of a document. Fails if, and only if, the document has no scene.
pub fn import_scene<M: SceneMath>(math: &M, doc: &Document) -> (r: Result<Scene, ImportError>)
    requires
        doc.valid(),
    ensures
        r is Err <==> doc.shown() is None,
        r matches Err(e) ==> e == ImportError::NoScene,
        r matches Ok(scene) ==> {
            &&& are_complete(scene.textures@)
            &&& scene.cameras@.len() > 0
            &&& scene.roots@ == doc.scenes@[doc.shown()->0]@
            &&& scene.nodes@.len() == doc.nodes@.len()
            &&& forall|i: int|
                0 <= i < scene.nodes@.len() ==> is_node_of(#[trigger] scene.nodes@[i], doc.nodes@[i], doc.meshes@)
            &&& forall|rules: SceneRules| #[trigger]
                rules.describe(*math) ==> rules.is_import(scene, *doc, doc.shown()->0)
        },
{
    let shown: usize = match doc.default_scene {
        Some(i) => i,
        None => {
            if doc.scenes.len() == 0 {
                return Err(ImportError::NoScene);
            }
            0
        },
    };
    let textures = import_textures(math, doc);
    let materials = import_materials(math, &doc.materials);
    let (meshes, first) = import_meshes(math, &doc.meshes);
    let mut cameras: Vec<Camera> = Vec::new();
    let mut lights: Vec<Light> = Vec::new();
    let list = &doc.scenes[shown];
    assert(doc.shown() == Some(shown as int));
    place_all(math, &doc.nodes, list, &Transform::identity(), doc.nodes.len(), &mut cameras, &mut lights);
    let nodes = import_nodes(&doc.nodes, &doc.meshes, &first);
    let ghost found = cameras@;
    if cameras.len() == 0 {
        cameras.push(Camera::default());
    }
    let roots = copy_all(list);
    let scene = Scene { meshes, materials, textures, lights, nodes, roots, cameras };
    proof {
        assert forall|rules: SceneRules| #[trigger] rules.describe(*math) implies rules.is_import(
            scene,
            *doc,
            shown as int,
        ) by {
            assert(rules.arith.describe(*math));
            let placed = rules.placed_in(*doc, shown as int);
            assert(found =~= placed.cameras);
            assert(scene.lights@ =~= placed.lights);
            assert(scene.materials@ =~= doc.materials@.map_values(|d: MaterialData| rules.arith.material_of(d)));
            assert(scene.cameras@ =~= (if placed.cameras.len() == 0 {
                seq![default_camera()]
            } else {
                placed.cameras
            }));
        }
    }
    Ok(scene)
}

/// Whether a node and all under it are there, and no path is longer than `fuel`.
fn check_branch(nodes: &Vec<NodeData>, i: usize, fuel: usize) -> (r: bool)
    ensures
        r == is_branch(nodes@, i as int, fuel as nat),
    decreases fuel,
{
    if fuel == 0 || i >= nodes.len() {
        return false;
    }
    let mut k: usize = 0;
    while k < nodes[i].children.len()
        invariant
            i < nodes.len(),
            fuel > 0,
            k <= nodes@[i as int].children@.len(),
            forall|j: int|
                #![trigger nodes@[i as int].children@[j]]
                0 <= j < k ==> is_branch(nodes@, nodes@[i as int].children@[j] as int, (fuel - 1) as nat),
        decreases nodes@[i as int].children@.len() - k,
    {
        let child: u32 = nodes[i].children[k];
        assert(nodes@[i as int].children@[k as int] == child);
        if !check_branch(nodes, child as usize, fuel - 1) {
            return false;
        }
        k = k + 1;
    }
    true
}

/// Whether a document can be made into a scene: all that it refers to is there,
/// and nodes form trees.
pub fn check_document(doc: &Document) -> (r: bool)
    ensures
        r == doc.valid(),
{
    if doc.images.len() > u32::MAX as usize {
        return false;
    }
    let mut i: usize = 0;
    while i < doc.images.len()
        invariant
            i <= doc.images.len(),
            forall|j: int| 0 <= j < i ==> (#[trigger] doc.images@[j]).is_complete(),
        decreases doc.images.len() - i,
    {
        if !check_image(&doc.images[i]) {
            assert(!doc.images@[i as int].is_complete());
            return false;
        }
        i = i + 1;
    }
    let mut parts: u64 = 0;
    let mut m: usize = 0;
    while m < doc.meshes.len()
        invariant
            m <= doc.meshes.len(),
            parts == parts_before(doc.meshes@, m as nat),
            parts <= u32::MAX,
        decreases doc.meshes.len() - m,
    {
        let n: u64 = doc.meshes[m].len() as u64;
        if n > u32::MAX as u64 || parts + n > u32::MAX as u64 {
            proof {
                lemma_parts_grow(doc.meshes@, (m + 1) as nat, doc.meshes@.len());
            }
            return false;
        }
        parts = parts + n;
        m = m + 1;
    }
    let mut j: usize = 0;
    while j < doc.nodes.len()
        invariant
            j <= doc.nodes.len(),
            forall|k: int|
                0 <= k < j ==> ((#[trigger] doc.nodes@[k]).mesh matches Some(m) ==> m < doc.meshes@.len()),
        decreases doc.nodes.len() - j,
    {
        if let Some(mesh) = doc.nodes[j].mesh {
            if mesh as usize >= doc.meshes.len() {
                assert(doc.nodes@[j as int].mesh == Some(mesh));
                return false;
            }
        }
        j = j + 1;
    }
    let shown: usize = match doc.default_scene {
        Some(s) => {
            if s >= doc.scenes.len() {
                return false;
            }
            s
        },
        None => {
            if doc.scenes.len() == 0 {
                return true;
            }
            0
        },
    };
    let list = &doc.scenes[shown];
    let mut k: usize = 0;
    while k < list.len()
        invariant
            k <= list.len(),
            shown < doc.scenes@.len(),
            doc.shown() == Some(shown as int),
            list@ == doc.scenes@[shown as int]@,
            forall|q: int|
                #![trigger list@[q]]
                0 <= q < k ==> is_branch(doc.nodes@, list@[q] as int, doc.nodes@.len()),
        decreases list.len() - k,
    {
        if !check_branch(&doc.nodes, list[k] as usize, doc.nodes.len()) {
            assert(!are_branches(doc.nodes@, list@, doc.nodes@.len())) by {
                assert(!is_branch(doc.nodes@, list@[k as int] as int, doc.nodes@.len()));
            }
            return false;
        }
        k = k + 1;
    }
    true
}

/// Whether every pixel of an image is there.
fn check_image(image: &ImageData) -> (r: bool)
    ensures
        r == image.is_complete(),
{
    let w: u64 = image.width as u64;
    let h: u64 = image.height as u64;
    assert(w * h <= 0xffff_ffff * 0xffff_ffff) by (nonlinear_arith)
        requires
            w <= 0xffff_ffff,
            h <= 0xffff_ffff,
    ;
    let n: u64 = w * h;
    if n > u32::MAX as u64 {
        return false;
    }
    let k: u64 = match image.format {
        PixelFormat::R8 => 1,
        PixelFormat::R8G8 => 2,
        PixelFormat::R8G8B8 => 3,
        PixelFormat::R8G8B8A8 => 4,
        PixelFormat::Other => 0,
    };
    assert(n * k <= 0xffff_ffff * 4) by (nonlinear_arith)
        requires
            n <= 0xffff_ffff,
            k <= 4,
    ;
    n * k <= image.bytes.len() as u64
}

/// Every part of every mesh becomes one mesh, and the parts of different meshes
/// different ones.
pub proof fn law_parts_are_kept_apart(doc: Seq<Vec<PrimitiveData>>, a: int, p: int, b: int, q: int)
    requires
        0 <= a < doc.len(),
        0 <= b < doc.len(),
        0 <= p < doc[a]@.len(),
        0 <= q < doc[b]@.len(),
        a != b || p != q,
    ensures
        parts_before(doc, a as nat) + p < parts_before(doc, doc.len()),
        parts_before(doc, a as nat) + p != parts_before(doc, b as nat) + q,
{
    lemma_parts_grow(doc, (a + 1) as nat, doc.len());
    if a < b {
        lemma_parts_grow(doc, (a + 1) as nat, b as nat);
    } else if b < a {
        lemma_parts_grow(doc, (b + 1) as nat, a as nat);
    }
}

/// Bytes run from nothing to one, in order, both as data and on the sRGB curve,
/// wherever counts, quotients, sums and powers keep the order.
pub proof fn law_bytes_run_from_black_to_white(rules: ArithRules, dark: u8, bright: u8)
    requires
        rules.keeps_zeros(),
        rules.keeps_selves(),
        rules.orders_products(),
        dark <= bright,
        rules.of_count(0) == Scalar::zero(),
        rules.of_count(255) == (Scalar { key: BYTE_MAX_KEY }),
        forall|a: usize, b: usize|
            #![trigger rules.of_count(a), rules.of_count(b)]
            a <= b <= 255 ==> rules.of_count(a).le(rules.of_count(b)) && rules.of_count(b).is_finite(),
    ensures
        rules.byte_fraction(0) == Scalar::zero(),
        rules.byte_fraction(255) == Scalar::one(),
        rules.byte_fraction(dark).le(rules.byte_fraction(bright)),
        rules.srgb_to_linear(0) == Scalar::zero(),
        rules.decoded(true, dark) == rules.byte_fraction(dark),
        rules.decoded(false, dark) == rules.srgb_to_linear(dark),
{
    assert(rules.of_count(0).le(rules.of_count(255)));
    assert(rules.of_count(dark as usize).le(rules.of_count(bright as usize)));
    assert(rules.of_count(dark as usize).le(rules.of_count(255)));
}

/// The sRGB curve is straight up to its knee and a power beyond: below, times its
/// slope it is the byte again; above, it is the power of the byte, moved and scaled,
/// and white is white.
pub proof fn law_srgb_has_a_straight_start(rules: ArithRules, b: u8)
    requires
        rules.keeps_selves(),
        rules.of_count(255) == (Scalar { key: BYTE_MAX_KEY }),
        rules.sum(Scalar::one(), Scalar { key: SRGB_OFFSET_KEY }) == (Scalar { key: SRGB_SCALE_KEY }),
        rules.power(Scalar::one(), Scalar { key: SRGB_GAMMA_KEY }) == Scalar::one(),
        ({
            let c = rules.byte_fraction(b);
            rules.product(rules.quotient(c, Scalar { key: SRGB_SLOPE_KEY }), Scalar { key: SRGB_SLOPE_KEY }) == c
        }),
    ensures
        rules.srgb_to_linear(255) == Scalar::one(),
        rules.byte_fraction(b).le(Scalar { key: SRGB_KNEE_KEY }) ==> rules.product(
            rules.srgb_to_linear(b),
            Scalar { key: SRGB_SLOPE_KEY },
        ) == rules.byte_fraction(b),
        (Scalar { key: SRGB_KNEE_KEY }).lt(rules.byte_fraction(b)) ==> rules.srgb_to_linear(b) == rules.power(
            rules.quotient(
                rules.sum(rules.byte_fraction(b), Scalar { key: SRGB_OFFSET_KEY }),
                Scalar { key: SRGB_SCALE_KEY },
            ),
            Scalar { key: SRGB_GAMMA_KEY },
        ),
{
    assert(rules.byte_fraction(255) == Scalar::one());
}

/// Pixels are read byte by byte: red, green and blue in order, gray for one channel,
/// no blue for two; what follows a color, such as its opacity, is not read.
pub proof fn law_pixels_are_read_in_order(rules: ArithRules, image: ImageData, other: ImageData, linear: bool, i: int)
    ensures
        ({
            let b = image.bytes@;
            let c = rules.image_pixel(image, linear, i);
            &&& image.format == PixelFormat::R8G8B8 ==> c.x == rules.decoded(linear, b[3 * i]) && c.y == rules.decoded(
                linear,
                b[3 * i + 1],
            ) && c.z == rules.decoded(linear, b[3 * i + 2])
            &&& image.format == PixelFormat::R8G8B8A8 ==> c.x == rules.decoded(linear, b[4 * i]) && c.y
                == rules.decoded(linear, b[4 * i + 1]) && c.z == rules.decoded(linear, b[4 * i + 2])
            &&& image.format == PixelFormat::R8 ==> c.x == rules.decoded(linear, b[i]) && c.y == c.x && c.z == c.x
            &&& image.format == PixelFormat::R8G8 ==> c.x == rules.decoded(linear, b[2 * i]) && c.y == rules.decoded(
                linear,
                b[2 * i + 1],
            ) && c.z == Scalar::zero()
        }),
        image.format == PixelFormat::R8G8B8A8 && other.format == PixelFormat::R8G8B8A8 && image.bytes@[4 * i]
            == other.bytes@[4 * i] && image.bytes@[4 * i + 1] == other.bytes@[4 * i + 1] && image.bytes@[4 * i + 2]
            == other.bytes@[4 * i + 2] ==> rules.image_pixel(image, linear, i) == rules.image_pixel(other, linear, i),
{
}

/// An image is data exactly if a material reads it as metallic-roughness, normals or
/// occlusion; colors and emission alone leave it color.
pub proof fn law_images_are_data_where_read_as_data(materials: Seq<MaterialData>, m: int, image: u32)
    requires
        0 <= m < materials.len(),
    ensures
        materials[m].metallic_roughness_texture == Some(image) ==> is_linear(materials, image as int),
        materials[m].normal_texture == Some(image) ==> is_linear(materials, image as int),
        materials[m].occlusion_texture == Some(image) ==> is_linear(materials, image as int),
        (forall|k: int|
            0 <= k < materials.len() ==> (#[trigger] materials[k]).metallic_roughness_texture != Some(image)
                && materials[k].normal_texture != Some(image) && materials[k].occlusion_texture != Some(image))
            ==> !is_linear(materials, image as int),
{
}

/// A material keeps what its document says: each of its factors, and each of its
/// textures in its own place.
pub proof fn law_material_keeps_its_factors(rules: ArithRules, d: MaterialData)
    requires
        rules.keeps_ones(),
        d.emissive_factor.is_finite(),
    ensures
        ({
            let m = rules.material_of(d);
            &&& m.albedo == d.base_color
            &&& m.metallic == d.metallic
            &&& m.roughness == d.roughness
            &&& m.albedo_texture == d.base_color_texture
            &&& m.emissive_texture == d.emissive_texture
            &&& m.metallic_roughness_texture == d.metallic_roughness_texture
            &&& m.normal_texture == d.normal_texture
            &&& m.alpha_cutoff == d.alpha_cutoff
            &&& m.double_sided == d.double_sided
            &&& d.emissive_strength is None ==> m.emissive == d.emissive_factor
            &&& (d.emissive_strength matches Some(s) ==> m.emissive == rules.scaled(d.emissive_factor, s))
            &&& (d.normal_scale matches Some(s) ==> m.normal_scale == s)
            &&& (d.transmission matches Some(t) ==> m.transmission == t)
            &&& (d.ior matches Some(i) ==> m.ior == i)
            &&& (d.volume matches Some(v) ==> m.thickness_factor == v.thickness_factor && m.attenuation_distance
                == v.attenuation_distance && m.attenuation_color == v.attenuation_color)
        }),
{
    let e = d.emissive_factor;
    assert(rules.scaled(e, Scalar::one()) == e) by {
        assert(rules.product(e.x, Scalar::one()) == e.x);
        assert(rules.product(e.y, Scalar::one()) == e.y);
        assert(rules.product(e.z, Scalar::one()) == e.z);
    }
}

/// What a document leaves out has its usual value: normals are not scaled, nothing is
/// transmitted, glass bends as glass does, and there is no volume to absorb.
pub proof fn law_omitted_factors_are_usual(rules: ArithRules, d: MaterialData)
    ensures
        ({
            let m = rules.material_of(d);
            &&& d.normal_scale is None ==> m.normal_scale == Scalar::one()
            &&& d.transmission is None ==> m.transmission == Scalar::zero()
            &&& d.ior is None ==> Scalar::one().lt(m.ior) && m.ior == (Scalar { key: ONE_AND_HALF_KEY })
            &&& d.volume is None ==> m.thickness_factor == Scalar::zero() && !m.attenuation_distance.is_finite()
                && m.attenuation_color == white()
        }),
{
}

/// A camera stands at its node and looks against the node's third axis, as far as a
/// target at that distance says; its angle is turned into degrees.
pub proof fn law_camera_stands_at_its_node(rules: SceneRules, world: Transform, camera: CameraData)
    requires
        ({
            let place = Point3 { x: world.w.x, y: world.w.y, z: world.w.z };
            let ahead = rules.vector(
                world,
                Point3 { x: Scalar::zero(), y: Scalar::zero(), z: Scalar::one().negated() },
            );
            rules.arith.minus(rules.arith.plus(place, ahead), place) == ahead
        }),
    ensures
        ({
            let c = rules.camera_at(world, camera);
            &&& c.position == (Point3 { x: world.w.x, y: world.w.y, z: world.w.z })
            &&& rules.arith.minus(c.target, c.position) == rules.vector(
                world,
                Point3 { x: Scalar::zero(), y: Scalar::zero(), z: Scalar::one().negated() },
            )
            &&& (camera.yfov matches Some(y) ==> c.fov == rules.arith.product(y, Scalar { key: DEGREES_KEY }))
        }),
{
}

/// A light stands at its node and shines against the node's third axis, in its own
/// color; its intensity, times what a watt is worth, is what the document says.
pub proof fn law_light_stands_at_its_node(rules: SceneRules, world: Transform, light: LightData)
    requires
        rules.arith.product(
            rules.arith.quotient(light.intensity, Scalar { key: CANDELAS_KEY }),
            Scalar { key: CANDELAS_KEY },
        ) == light.intensity,
        rules.arith.product(
            rules.arith.quotient(light.intensity, Scalar { key: LUMENS_KEY }),
            Scalar { key: LUMENS_KEY },
        ) == light.intensity,
    ensures
        ({
            let place = Point3 { x: world.w.x, y: world.w.y, z: world.w.z };
            let ahead = rules.arith.unit(
                rules.vector(world, Point3 { x: Scalar::zero(), y: Scalar::zero(), z: Scalar::one().negated() }),
            );
            match rules.light_at(world, light) {
                Light::Point { position, color, intensity } => light.kind == LightKind::Point && position == place
                    && color == light.color && rules.arith.product(intensity, Scalar { key: CANDELAS_KEY })
                    == light.intensity,
                Light::Spot { position, direction, color, intensity } => light.kind == LightKind::Spot && position
                    == place && direction == ahead && color == light.color && rules.arith.product(
                    intensity,
                    Scalar { key: CANDELAS_KEY },
                ) == light.intensity,
                Light::Directional { direction, color, intensity } => light.kind == LightKind::Directional && direction
                    == ahead && color == light.color && rules.arith.product(intensity, Scalar { key: LUMENS_KEY })
                    == light.intensity,
                _ => false,
            }
        }),
{
}

/// What stands at a node stands in its own place within its parent's, and its children
/// within that.
pub proof fn law_nodes_stand_in_their_parents(rules: SceneRules, nodes: Seq<NodeData>, i: int, parent: Transform, fuel: nat)
    requires
        fuel > 0,
    ensures
        ({
            let world = (rules.compose)(parent, nodes[i].transform);
            let placed = rules.placed_at(nodes, i, parent, fuel);
            &&& (nodes[i].camera matches Some(c) ==> placed.cameras.len() > 0 && placed.cameras[0] == rules.camera_at(
                world,
                c,
            ))
            &&& (nodes[i].light matches Some(l) ==> placed.lights.len() > 0 && placed.lights[0] == rules.light_at(
                world,
                l,
            ))
            &&& nodes[i].children@.len() == 0 ==> placed.cameras == rules.own(nodes[i], world).cameras && placed.lights
                == rules.own(nodes[i], world).lights
        }),
{
    reveal_with_fuel(SceneRules::placed_at, 2);
    reveal_with_fuel(SceneRules::placed_under, 2);
    let world = (rules.compose)(parent, nodes[i].transform);
    let own = rules.own(nodes[i], world);
    if nodes[i].children@.len() == 0 {
        assert(own.cameras + Seq::<Camera>::empty() =~= own.cameras);
        assert(own.lights + Seq::<Light>::empty() =~= own.lights);
    }
}

/// Indices are taken three by three, in order.
pub proof fn law_triangles_take_three_indices(indices: Seq<u32>, i: int)
    requires
        0 <= i,
        3 * i + 2 < indices.len(),
    ensures
        triples(indices).len() == indices.len() / 3,
        triples(indices)[i].v0 == indices[3 * i],
        triples(indices)[i].v1 == indices[3 * i + 1],
        triples(indices)[i].v2 == indices[3 * i + 2],
{
}

} // verus!
