//! Surfaces as they are met by rays.
use vstd::prelude::*;
use crate::accel::bvh::Ray;
use crate::arith::{
    blend, cross, dot, law_blend_has_corners, law_cross_is_right_handed, law_dot_counts_axes_alike, minus, plus, scaled,
    times, unit, Arith, ArithRules,
};
use crate::brdf::{Brdf, MIN_COSINE_KEY};
use crate::bvh::{Bvh, BvhHit};
use crate::emitters::{blend_uv, third};
use crate::microfacet::TWO_KEY;
use crate::scalar::{Point3, Scalar};
use crate::scene::{Color, Material, Scene, Texture, Vec2, Vec4};
use crate::texture::{are_complete, law_channels_stay_apart, modulate, share_channel};

verus! {

/// Key of the least sign that a tangent of a mesh has; without one it is zero.
pub const TANGENT_SIGN_KEY: i32 = 0x3f00_0000;

/// Key of the cosine above which a normal counts as running along the first axis.
pub const ALONG_AXIS_KEY: i32 = 0x3f66_6666;

/// Geometry and material evaluated at a ray hit.
#[derive(Clone, Copy, PartialEq, Eq, Structural, Debug)]
pub struct SurfaceInteraction {
    pub position: Point3,
    /// Shading normal (vertex-interpolated and normal-mapped).
    pub normal: Point3,
    /// Geometric normal (triangle winding).
    pub geo_normal: Point3,
    pub albedo: Color,
    pub emissive: Color,
    pub metallic: Scalar,
    pub roughness: Scalar,
    pub transmission: Scalar,
    pub ior: Scalar,
    pub thickness_factor: Scalar,
    pub attenuation_distance: Scalar,
    pub attenuation_color: Color,
}

impl SurfaceInteraction {
    /// The GGX Cook-Torrance BRDF for this surface.
    #[verifier::allow_in_spec]
    pub fn brdf(&self) -> Brdf
        returns
            (Brdf::CookTorrance { albedo: self.albedo, metallic: self.metallic, roughness: self.roughness }),
    {
        Brdf::CookTorrance { albedo: self.albedo, metallic: self.metallic, roughness: self.roughness }
    }
}

/// The directions along which the axes of a normal map run.
#[derive(Clone, Copy, PartialEq, Eq, Structural, Debug)]
pub struct Frame {
    pub tangent: Point3,
    pub bitangent: Point3,
}

/// A triangle in space and in the texture, with its tangents, and a point in it.
#[derive(Clone, Copy, PartialEq, Eq, Structural, Debug)]
pub struct Patch {
    pub p0: Point3,
    pub p1: Point3,
    pub p2: Point3,
    pub uv0: Vec2,
    pub uv1: Vec2,
    pub uv2: Vec2,
    pub t0: Vec4,
    pub t1: Vec4,
    pub t2: Vec4,
    pub u: Scalar,
    pub v: Scalar,
    pub w: Scalar,
}

impl Material {
    /// Whether any texture is bound.
    #[verifier::allow_in_spec]
    pub fn has_textures(self) -> bool
        returns
            self.albedo_texture is Some || self.emissive_texture is Some || self.metallic_roughness_texture is Some
                || self.normal_texture is Some,
    {
        self.albedo_texture.is_some() || self.emissive_texture.is_some() || self.metallic_roughness_texture.is_some()
            || self.normal_texture.is_some()
    }
}

impl Vec4 {
    /// The direction of a tangent.
    #[verifier::allow_in_spec]
    pub fn direction(self) -> Point3
        returns
            (Point3 { x: self.x, y: self.y, z: self.z }),
    {
        Point3 { x: self.x, y: self.y, z: self.z }
    }
}

impl ArithRules {
    /// The point of a ray at a distance.
    pub open spec fn ray_at(self, ray: Ray, t: Scalar) -> Point3 {
        self.plus(ray.org, self.scaled(ray.dir, t))
    }

    /// The part of a vector that lies across a normal.
    pub open spec fn across(self, n: Point3, t: Point3) -> Point3 {
        self.minus(t, self.scaled(n, self.dot(n, t)))
    }

    /// A vector, made unit length, or another if it has no length to speak of.
    pub open spec fn unit_or(self, t: Point3, other: Point3) -> Point3 {
        if (Scalar { key: MIN_COSINE_KEY }).lt(self.dot(t, t)) {
            self.unit(t)
        } else {
            other
        }
    }

    /// The frame that the tangents of a mesh give. The sign handles mirrored
    /// textures.
    pub open spec fn mesh_frame(self, n: Point3, patch: Patch) -> Frame {
        let raw = self.blend(
            patch.t0.direction(),
            patch.w,
            patch.t1.direction(),
            patch.u,
            patch.t2.direction(),
            patch.v,
        );
        let tangent = self.unit_or(self.across(n, raw), self.unit(raw));
        Frame { tangent, bitangent: self.scaled(self.cross(n, tangent), patch.t0.w) }
    }

    /// Some tangent, where the texture gives none.
    pub open spec fn any_tangent(self, n: Point3) -> Point3 {
        let axis = if n.x.magnitude().lt(Scalar { key: ALONG_AXIS_KEY }) {
            Point3 { x: Scalar::one(), y: Scalar::zero(), z: Scalar::zero() }
        } else {
            Point3 { x: Scalar::zero(), y: Scalar::one(), z: Scalar::zero() }
        };
        self.unit(self.cross(axis, n))
    }

    /// The frame that the texture coordinates of a triangle give. The second axis is
    /// flipped: textures are stored top down, normal maps are baked bottom up.
    pub open spec fn texture_frame(self, n: Point3, patch: Patch) -> Frame {
        let dp1 = self.minus(patch.p1, patch.p0);
        let dp2 = self.minus(patch.p2, patch.p0);
        let du1 = self.difference(patch.uv1.x, patch.uv0.x);
        let dv1 = self.difference(patch.uv1.y, patch.uv0.y);
        let du2 = self.difference(patch.uv2.x, patch.uv0.x);
        let dv2 = self.difference(patch.uv2.y, patch.uv0.y);
        let det = self.difference(self.product(du1, dv2), self.product(dv1, du2));
        let inv_det = if (Scalar { key: MIN_COSINE_KEY }).lt(det.magnitude()) {
            self.quotient(Scalar::one(), det)
        } else {
            Scalar::zero()
        };
        let raw_t = self.scaled(self.minus(self.scaled(dp1, dv2), self.scaled(dp2, dv1)), inv_det);
        let raw_b = self.scaled(self.minus(self.scaled(dp2, du1), self.scaled(dp1, du2)), inv_det);
        let tangent = self.unit_or(self.across(n, raw_t), self.any_tangent(n));
        let b = self.across(n, raw_b);
        let bitangent = if (Scalar { key: MIN_COSINE_KEY }).lt(self.dot(b, b)) {
            self.unit(b).negated()
        } else {
            self.cross(n, tangent)
        };
        Frame { tangent, bitangent }
    }

    /// The axes of a normal map: from the tangents of the mesh if it has them, else
    /// from its texture coordinates.
    pub open spec fn map_frame(self, n: Point3, patch: Patch) -> Frame {
        if (Scalar { key: TANGENT_SIGN_KEY }).lt(patch.t0.w.magnitude()) {
            self.mesh_frame(n, patch)
        } else {
            self.texture_frame(n, patch)
        }
    }

    /// A color channel as a coordinate from -1 to 1.
    pub open spec fn signed(self, c: Scalar) -> Scalar {
        self.difference(self.product(c, Scalar { key: TWO_KEY }), Scalar::one())
    }

    /// A normal, turned by a pixel of a normal map; the geometric normal if it would
    /// turn away from where the ray comes from.
    pub open spec fn turned_normal(self, n: Point3, geo_normal: Point3, patch: Patch, pixel: Color, scale: Scalar, wo: Point3) -> Point3 {
        let frame = self.map_frame(n, patch);
        let x = self.product(self.signed(pixel.x), scale);
        let y = self.product(self.signed(pixel.y), scale);
        let z = self.signed(pixel.z);
        let turned = self.unit(self.blend(frame.tangent, x, frame.bitangent, y, n, z));
        if self.dot(turned, wo).le(Scalar::zero()) {
            geo_normal
        } else {
            turned
        }
    }
}

/// The point of a ray at a distance.
pub fn ray_at<M: Arith>(math: &M, ray: Ray, t: Scalar) -> (r: Point3)
    ensures
        forall|rules: ArithRules| #[trigger] rules.describe(*math) ==> r == rules.ray_at(ray, t),
{
    plus(math, ray.org, scaled(math, ray.dir, t))
}

/// The part of a vector that lies across a normal.
fn across<M: Arith>(math: &M, n: Point3, t: Point3) -> (r: Point3)
    ensures
        forall|rules: ArithRules| #[trigger] rules.describe(*math) ==> r == rules.across(n, t),
{
    minus(math, t, scaled(math, n, dot(math, n, t)))
}

/// A vector, made unit length, or another if it has no length to speak of.
fn unit_or<M: Arith>(math: &M, t: Point3, other: Point3) -> (r: Point3)
    ensures
        forall|rules: ArithRules| #[trigger] rules.describe(*math) ==> r == rules.unit_or(t, other),
{
    if (Scalar { key: MIN_COSINE_KEY }).lt(dot(math, t, t)) {
        unit(math, t)
    } else {
        other
    }
}

/// The frame that the tangents of a mesh give. The sign handles mirrored
/// textures.
fn mesh_frame<M: Arith>(math: &M, n: Point3, patch: Patch) -> (r: Frame)
    ensures
        forall|rules: ArithRules| #[trigger] rules.describe(*math) ==> r == rules.mesh_frame(n, patch),
{
    let raw = blend(
        math,
        patch.t0.direction(),
        patch.w,
        patch.t1.direction(),
        patch.u,
        patch.t2.direction(),
        patch.v,
    );
    let tangent = unit_or(math, across(math, n, raw), unit(math, raw));
    Frame { tangent, bitangent: scaled(math, cross(math, n, tangent), patch.t0.w) }
}

/// Some tangent, where the texture gives none.
fn any_tangent<M: Arith>(math: &M, n: Point3) -> (r: Point3)
    ensures
        forall|rules: ArithRules| #[trigger] rules.describe(*math) ==> r == rules.any_tangent(n),
{
    let axis = if n.x.magnitude().lt(Scalar { key: ALONG_AXIS_KEY }) {
        Point3 { x: Scalar::one(), y: Scalar::zero(), z: Scalar::zero() }
    } else {
        Point3 { x: Scalar::zero(), y: Scalar::one(), z: Scalar::zero() }
    };
    unit(math, cross(math, axis, n))
}

/// The frame that the texture coordinates of a triangle give. The second axis is
/// flipped: textures are stored top down, normal maps are baked bottom up.
fn texture_frame<M: Arith>(math: &M, n: Point3, patch: Patch) -> (r: Frame)
    ensures
        forall|rules: ArithRules| #[trigger] rules.describe(*math) ==> r == rules.texture_frame(n, patch),
{
    let dp1 = minus(math, patch.p1, patch.p0);
    let dp2 = minus(math, patch.p2, patch.p0);
    let du1 = math.difference(patch.uv1.x, patch.uv0.x);
    let dv1 = math.difference(patch.uv1.y, patch.uv0.y);
    let du2 = math.difference(patch.uv2.x, patch.uv0.x);
    let dv2 = math.difference(patch.uv2.y, patch.uv0.y);
    let det = math.difference(math.product(du1, dv2), math.product(dv1, du2));
    let inv_det = if (Scalar { key: MIN_COSINE_KEY }).lt(det.magnitude()) {
        math.quotient(Scalar::one(), det)
    } else {
        Scalar::zero()
    };
    let raw_t = scaled(math, minus(math, scaled(math, dp1, dv2), scaled(math, dp2, dv1)), inv_det);
    let raw_b = scaled(math, minus(math, scaled(math, dp2, du1), scaled(math, dp1, du2)), inv_det);
    let tangent = unit_or(math, across(math, n, raw_t), any_tangent(math, n));
    let b = across(math, n, raw_b);
    let bitangent = if (Scalar { key: MIN_COSINE_KEY }).lt(dot(math, b, b)) {
        unit(math, b).negated()
    } else {
        cross(math, n, tangent)
    };
    Frame { tangent, bitangent }
}

/// The axes of a normal map: from the tangents of the mesh if it has them, else
/// from its texture coordinates.
fn map_frame<M: Arith>(math: &M, n: Point3, patch: Patch) -> (r: Frame)
    ensures
        forall|rules: ArithRules| #[trigger] rules.describe(*math) ==> r == rules.map_frame(n, patch),
{
    if (Scalar { key: TANGENT_SIGN_KEY }).lt(patch.t0.w.magnitude()) {
        mesh_frame(math, n, patch)
    } else {
        texture_frame(math, n, patch)
    }
}

/// A color channel as a coordinate from -1 to 1.
fn signed<M: Arith>(math: &M, c: Scalar) -> (r: Scalar)
    ensures
        forall|rules: ArithRules| #[trigger] rules.describe(*math) ==> r == rules.signed(c),
{
    math.difference(math.product(c, Scalar { key: TWO_KEY }), Scalar::one())
}

/// A normal, turned by a pixel of a normal map; the geometric normal if it would
/// turn away from where the ray comes from.
fn turned_normal<M: Arith>(math: &M, n: Point3, geo_normal: Point3, patch: Patch, pixel: Color, scale: Scalar, wo: Point3) -> (r: Point3)
    ensures
        forall|rules: ArithRules| #[trigger] rules.describe(*math) ==> r == rules.turned_normal(n, geo_normal, patch, pixel, scale, wo),
{
    let frame = map_frame(math, n, patch);
    let x = math.product(signed(math, pixel.x), scale);
    let y = math.product(signed(math, pixel.y), scale);
    let z = signed(math, pixel.z);
    let turned = unit(math, blend(math, frame.tangent, x, frame.bitangent, y, n, z));
    if dot(math, turned, wo).le(Scalar::zero()) {
        geo_normal
    } else {
        turned
    }
}

/// Whether an index reads all that is known at the corners of triangles.
pub open spec fn is_corner(bvh: Bvh, i: u32) -> bool {
    &&& i < bvh.vertices@.len()
    &&& i < bvh.normals@.len()
    &&& i < bvh.uvs@.len()
    &&& i < bvh.colors@.len()
}

/// Whether a hit can be looked up: its material and its corners are there.
pub open spec fn can_be_shaded(bvh: Bvh, scene: Scene, hit: BvhHit) -> bool {
    &&& hit.material < scene.materials@.len()
    &&& is_corner(bvh, hit.v0)
    &&& is_corner(bvh, hit.v1)
    &&& is_corner(bvh, hit.v2)
}

/// The tangent at an index, zero if there is none.
pub open spec fn tangent_at(tangents: Seq<Vec4>, i: u32) -> Vec4 {
    if i < tangents.len() {
        tangents[i as int]
    } else {
        Vec4::zero()
    }
}

/// Metallic and roughness factors.
#[derive(Clone, Copy, PartialEq, Eq, Structural, Debug)]
pub struct Finish {
    pub metallic: Scalar,
    pub roughness: Scalar,
}

impl ArithRules {
    /// The triangle of a hit. Texture coordinates count only if a texture is bound.
    pub open spec fn patch_of(self, bvh: Bvh, scene: Scene, hit: BvhHit) -> Patch {
        let textured = scene.materials@[hit.material as int].has_textures();
        Patch {
            p0: bvh.vertices@[hit.v0 as int],
            p1: bvh.vertices@[hit.v1 as int],
            p2: bvh.vertices@[hit.v2 as int],
            uv0: if textured { bvh.uvs@[hit.v0 as int] } else { Vec2::zero() },
            uv1: if textured { bvh.uvs@[hit.v1 as int] } else { Vec2::zero() },
            uv2: if textured { bvh.uvs@[hit.v2 as int] } else { Vec2::zero() },
            t0: tangent_at(bvh.tangents@, hit.v0),
            t1: tangent_at(bvh.tangents@, hit.v1),
            t2: tangent_at(bvh.tangents@, hit.v2),
            u: hit.hit.u,
            v: hit.hit.v,
            w: self.third(hit.hit.u, hit.hit.v),
        }
    }

    /// The factors of a material, modulated by its texture: blue metallic, green
    /// roughness.
    pub open spec fn finish_of(self, textures: Seq<Texture>, mat: Material, uv: Vec2) -> Finish {
        match mat.metallic_roughness_texture {
            Some(i) => if i < textures.len() {
                let mr = self.bilinear(textures[i as int], uv);
                Finish {
                    metallic: self.product(mat.metallic, mr.z),
                    roughness: self.product(mat.roughness, mr.y),
                }
            } else {
                Finish { metallic: mat.metallic, roughness: mat.roughness }
            },
            None => Finish { metallic: mat.metallic, roughness: mat.roughness },
        }
    }

    /// The shading normal: interpolated, and turned by the normal map if there is one.
    pub open spec fn shading_normal(
        self,
        textures: Seq<Texture>,
        mat: Material,
        uv: Vec2,
        n: Point3,
        geo_normal: Point3,
        patch: Patch,
        wo: Point3,
    ) -> Point3 {
        match mat.normal_texture {
            Some(i) => if i < textures.len() {
                self.turned_normal(
                    n,
                    geo_normal,
                    patch,
                    self.bilinear(textures[i as int], uv),
                    mat.normal_scale,
                    wo,
                )
            } else {
                n
            },
            None => n,
        }
    }

    /// The surface at a hit of a ray.
    pub open spec fn surface(self, hit: BvhHit, ray: Ray, bvh: Bvh, scene: Scene) -> SurfaceInteraction {
        let mat = scene.materials@[hit.material as int];
        let textures = scene.textures@;
        let patch = self.patch_of(bvh, scene, hit);
        let (u, v, w) = (patch.u, patch.v, patch.w);
        let n = self.unit(
            self.blend(
                bvh.normals@[hit.v0 as int],
                w,
                bvh.normals@[hit.v1 as int],
                u,
                bvh.normals@[hit.v2 as int],
                v,
            ),
        );
        let geo_normal = self.unit(self.cross(self.minus(patch.p1, patch.p0), self.minus(patch.p2, patch.p0)));
        let vertex_color = self.blend(
            bvh.colors@[hit.v0 as int],
            w,
            bvh.colors@[hit.v1 as int],
            u,
            bvh.colors@[hit.v2 as int],
            v,
        );
        let uv = self.blend_uv(patch.uv0, w, patch.uv1, u, patch.uv2, v);
        let finish = self.finish_of(textures, mat, uv);
        SurfaceInteraction {
            position: self.ray_at(ray, hit.hit.t),
            normal: self.shading_normal(textures, mat, uv, n, geo_normal, patch, ray.dir.negated()),
            geo_normal,
            albedo: self.modulated(textures, mat.albedo_texture, self.times(mat.albedo, vertex_color), uv),
            emissive: self.modulated(textures, mat.emissive_texture, mat.emissive, uv),
            metallic: finish.metallic,
            roughness: finish.roughness,
            transmission: mat.transmission,
            ior: mat.ior,
            thickness_factor: mat.thickness_factor,
            attenuation_distance: mat.attenuation_distance,
            attenuation_color: mat.attenuation_color,
        }
    }
}

/// The tangent at an index, zero if there is none.
fn get_tangent(tangents: &Vec<Vec4>, i: u32) -> (r: Vec4)
    ensures
        r == tangent_at(tangents@, i),
{
    if (i as usize) < tangents.len() {
        tangents[i as usize]
    } else {
        Vec4::zero()
    }
}

/// The triangle of a hit.
fn make_patch<M: Arith>(math: &M, bvh: &Bvh, scene: &Scene, hit: &BvhHit) -> (r: Patch)
    requires
        can_be_shaded(*bvh, *scene, *hit),
    ensures
        forall|rules: ArithRules| #[trigger] rules.describe(*math) ==> r == rules.patch_of(*bvh, *scene, *hit),
{
    let textured: bool = scene.materials[hit.material as usize].has_textures();
    let z = Vec2::zero();
    let (uv0, uv1, uv2) = if textured {
        (bvh.uvs[hit.v0 as usize], bvh.uvs[hit.v1 as usize], bvh.uvs[hit.v2 as usize])
    } else {
        (z, z, z)
    };
    Patch {
        p0: bvh.vertices[hit.v0 as usize],
        p1: bvh.vertices[hit.v1 as usize],
        p2: bvh.vertices[hit.v2 as usize],
        uv0,
        uv1,
        uv2,
        t0: get_tangent(&bvh.tangents, hit.v0),
        t1: get_tangent(&bvh.tangents, hit.v1),
        t2: get_tangent(&bvh.tangents, hit.v2),
        u: hit.hit.u,
        v: hit.hit.v,
        w: third(math, hit.hit.u, hit.hit.v),
    }
}

/// The factors of a material, modulated by its texture.
fn make_finish<M: Arith>(math: &M, textures: &Vec<Texture>, mat: &Material, uv: Vec2) -> (r: Finish)
    requires
        are_complete(textures@),
    ensures
        forall|rules: ArithRules| #[trigger] rules.describe(*math) ==> r == rules.finish_of(textures@, *mat, uv),
{
    match mat.metallic_roughness_texture {
        Some(i) => {
            if (i as usize) < textures.len() {
                let mr = textures[i as usize].sample_bilinear(math, uv);
                Finish {
                    metallic: math.product(mat.metallic, mr.z),
                    roughness: math.product(mat.roughness, mr.y),
                }
            } else {
                Finish { metallic: mat.metallic, roughness: mat.roughness }
            }
        },
        None => Finish { metallic: mat.metallic, roughness: mat.roughness },
    }
}

/// The shading normal.
fn make_normal<M: Arith>(
    math: &M,
    textures: &Vec<Texture>,
    mat: &Material,
    uv: Vec2,
    n: Point3,
    geo_normal: Point3,
    patch: Patch,
    wo: Point3,
) -> (r: Point3)
    requires
        are_complete(textures@),
    ensures
        forall|rules: ArithRules| #[trigger]
            rules.describe(*math) ==> r == rules.shading_normal(textures@, *mat, uv, n, geo_normal, patch, wo),
{
    match mat.normal_texture {
        Some(i) => {
            if (i as usize) < textures.len() {
                let pixel = textures[i as usize].sample_bilinear(math, uv);
                turned_normal(math, n, geo_normal, patch, pixel, mat.normal_scale, wo)
            } else {
                n
            }
        },
        None => n,
    }
}

/// Interpolate geometry and evaluate all material inputs (albedo, emissive,
/// metallic, roughness, normal map) at a ray hit.
pub fn evaluate_surface<M: Arith>(math: &M, hit: &BvhHit, ray: &Ray, bvh: &Bvh, scene: &Scene) -> (r:
    SurfaceInteraction)
    requires
        can_be_shaded(*bvh, *scene, *hit),
        are_complete(scene.textures@),
    ensures
        forall|rules: ArithRules| #[trigger] rules.describe(*math) ==> r == rules.surface(*hit, *ray, *bvh, *scene),
{
    let mat = scene.materials[hit.material as usize];
    let patch = make_patch(math, bvh, scene, hit);
    let u = patch.u;
    let v = patch.v;
    let w = patch.w;
    let n0 = bvh.normals[hit.v0 as usize];
    let n1 = bvh.normals[hit.v1 as usize];
    let n2 = bvh.normals[hit.v2 as usize];
    let n = unit(math, blend(math, n0, w, n1, u, n2, v));
    let e1 = minus(math, patch.p1, patch.p0);
    let e2 = minus(math, patch.p2, patch.p0);
    let geo_normal = unit(math, cross(math, e1, e2));
    let c0 = bvh.colors[hit.v0 as usize];
    let c1 = bvh.colors[hit.v1 as usize];
    let c2 = bvh.colors[hit.v2 as usize];
    let vertex_color = blend(math, c0, w, c1, u, c2, v);
    let uv = blend_uv(math, patch.uv0, w, patch.uv1, u, patch.uv2, v);
    let finish = make_finish(math, &scene.textures, &mat, uv);
    let base = times(math, mat.albedo, vertex_color);
    SurfaceInteraction {
        position: ray_at(math, *ray, hit.hit.t),
        normal: make_normal(math, &scene.textures, &mat, uv, n, geo_normal, patch, ray.dir.negated()),
        geo_normal,
        albedo: modulate(math, &scene.textures, mat.albedo_texture, base, uv),
        emissive: modulate(math, &scene.textures, mat.emissive_texture, mat.emissive, uv),
        metallic: finish.metallic,
        roughness: finish.roughness,
        transmission: mat.transmission,
        ior: mat.ior,
        thickness_factor: mat.thickness_factor,
        attenuation_distance: mat.attenuation_distance,
        attenuation_color: mat.attenuation_color,
    }
}

/// A normal map never leaves the shading normal turned away from where the ray
/// comes from, unless the geometric normal is itself.
pub proof fn law_normal_map_respects_horizon(
    rules: ArithRules,
    n: Point3,
    geo_normal: Point3,
    patch: Patch,
    pixel: Color,
    scale: Scalar,
    wo: Point3,
)
    ensures
        ({
            let r = rules.turned_normal(n, geo_normal, patch, pixel, scale, wo);
            r == geo_normal || !rules.dot(r, wo).le(Scalar::zero())
        }),
{
}

/// A material without textures looks the same whatever textures the scene has.
pub proof fn law_untextured_ignores_textures(
    rules: ArithRules,
    a: Seq<Texture>,
    b: Seq<Texture>,
    mat: Material,
    uv: Vec2,
    base: Color,
)
    requires
        !mat.has_textures(),
    ensures
        rules.finish_of(a, mat, uv) == rules.finish_of(b, mat, uv),
        rules.modulated(a, mat.albedo_texture, base, uv) == base,
        rules.modulated(b, mat.emissive_texture, base, uv) == base,
{
}

/// Whether two scenes have the same materials, and the metallic-roughness texture of
/// a material shares a channel in both.
pub open spec fn share_finish(a: Scene, b: Scene, material: u32, channel: usize) -> bool {
    &&& a.materials@ == b.materials@
    &&& material < a.materials@.len()
    &&& a.textures@.len() == b.textures@.len()
    &&& (a.materials@[material as int].metallic_roughness_texture matches Some(i) ==> i < a.textures@.len()
        ==> share_channel(a.textures@[i as int], b.textures@[i as int], channel))
}

/// Roughness is read from the green channel of the metallic-roughness texture alone,
/// and the metallic value from the blue one: whatever the other channels hold, the
/// surface has the same value.
pub proof fn law_finish_reads_its_channels(rules: ArithRules, hit: BvhHit, ray: Ray, bvh: Bvh, a: Scene, b: Scene)
    ensures
        share_finish(a, b, hit.material, 1) ==> rules.surface(hit, ray, bvh, a).roughness == rules.surface(
            hit,
            ray,
            bvh,
            b,
        ).roughness,
        share_finish(a, b, hit.material, 2) ==> rules.surface(hit, ray, bvh, a).metallic == rules.surface(
            hit,
            ray,
            bvh,
            b,
        ).metallic,
{
    if hit.material < a.materials@.len() {
        let patch = rules.patch_of(bvh, a, hit);
        let uv = rules.blend_uv(patch.uv0, patch.w, patch.uv1, patch.u, patch.uv2, patch.v);
        if let Some(i) = a.materials@[hit.material as int].metallic_roughness_texture {
            if i < a.textures@.len() {
                if share_finish(a, b, hit.material, 1) {
                    law_channels_stay_apart(rules, a.textures@[i as int], b.textures@[i as int], uv, 1);
                }
                if share_finish(a, b, hit.material, 2) {
                    law_channels_stay_apart(rules, a.textures@[i as int], b.textures@[i as int], uv, 2);
                }
            }
        }
    }
}

/// A metallic-roughness texture modulates the factors of the material: where its
/// green is one, the roughness is the material's own, and where it is zero there is
/// none; so is the metallic value with its blue. Without such a texture both are the
/// material's own.
pub proof fn law_finish_modulates_factors(rules: ArithRules, textures: Seq<Texture>, mat: Material, uv: Vec2)
    requires
        rules.keeps_ones(),
        rules.keeps_zeros(),
        mat.metallic.is_finite(),
        mat.roughness.is_finite(),
    ensures
        mat.metallic_roughness_texture is None || mat.metallic_roughness_texture->0 >= textures.len()
            ==> rules.finish_of(textures, mat, uv) == (Finish { metallic: mat.metallic, roughness: mat.roughness }),
        mat.metallic_roughness_texture matches Some(i) ==> i < textures.len() ==> {
            let seen = rules.bilinear(textures[i as int], uv);
            let finish = rules.finish_of(textures, mat, uv);
            &&& seen.y == Scalar::one() ==> finish.roughness == mat.roughness
            &&& seen.z == Scalar::one() ==> finish.metallic == mat.metallic
            &&& seen.y == Scalar::zero() ==> finish.roughness == Scalar::zero()
            &&& seen.z == Scalar::zero() ==> finish.metallic == Scalar::zero()
        },
{
}

/// The rougher and the more metallic a texture is, the rougher and the more metallic
/// the surface, wherever products keep the order.
pub proof fn law_finish_grows_with_its_texture(
    rules: ArithRules,
    a: Seq<Texture>,
    b: Seq<Texture>,
    mat: Material,
    uv: Vec2,
    i: u32,
)
    requires
        rules.orders_products(),
        mat.metallic_roughness_texture == Some(i),
        i < a.len(),
        i < b.len(),
        mat.metallic.is_finite() && Scalar::zero().le(mat.metallic),
        mat.roughness.is_finite() && Scalar::zero().le(mat.roughness),
        rules.bilinear(a[i as int], uv).is_finite(),
        rules.bilinear(b[i as int], uv).is_finite(),
    ensures
        rules.bilinear(a[i as int], uv).y.le(rules.bilinear(b[i as int], uv).y) ==> rules.finish_of(
            a,
            mat,
            uv,
        ).roughness.le(rules.finish_of(b, mat, uv).roughness),
        rules.bilinear(a[i as int], uv).z.le(rules.bilinear(b[i as int], uv).z) ==> rules.finish_of(
            a,
            mat,
            uv,
        ).metallic.le(rules.finish_of(b, mat, uv).metallic),
{
}

/// What is known at a corner of a triangle.
pub open spec fn corner_is_finite(bvh: Bvh, i: u32) -> bool {
    bvh.normals@[i as int].is_finite() && bvh.colors@[i as int].is_finite() && bvh.uvs@[i as int].x.is_finite()
        && bvh.uvs@[i as int].y.is_finite()
}

/// Whether the coordinates of a hit lie on a corner of its triangle, which one, and
/// which vertex that is.
pub open spec fn lies_on_corner(hit: BvhHit, vertex: u32) -> bool {
    ||| hit.hit.u == Scalar::zero() && hit.hit.v == Scalar::zero() && vertex == hit.v0
    ||| hit.hit.u == Scalar::one() && hit.hit.v == Scalar::zero() && vertex == hit.v1
    ||| hit.hit.u == Scalar::zero() && hit.hit.v == Scalar::one() && vertex == hit.v2
}

/// On a corner of a triangle a surface has what is known at the vertex there: its
/// normal, its color as a factor of the material's, and its place in textures.
pub proof fn law_corners_are_interpolated(rules: ArithRules, hit: BvhHit, ray: Ray, bvh: Bvh, scene: Scene, vertex: u32)
    requires
        rules.keeps_ones(),
        rules.keeps_zeros(),
        rules.keeps_selves(),
        lies_on_corner(hit, vertex),
        corner_is_finite(bvh, hit.v0),
        corner_is_finite(bvh, hit.v1),
        corner_is_finite(bvh, hit.v2),
    ensures
        ({
            let mat = scene.materials@[hit.material as int];
            let surf = rules.surface(hit, ray, bvh, scene);
            let base = rules.times(mat.albedo, bvh.colors@[vertex as int]);
            let uv = if mat.has_textures() {
                bvh.uvs@[vertex as int]
            } else {
                Vec2::zero()
            };
            &&& mat.normal_texture is None ==> surf.normal == rules.unit(bvh.normals@[vertex as int])
            &&& mat.albedo_texture is None ==> surf.albedo == base
            &&& mat.albedo_texture matches Some(i) ==> i < scene.textures@.len() ==> surf.albedo == rules.times(
                base,
                rules.bilinear(scene.textures@[i as int], uv),
            )
            &&& mat.emissive_texture matches Some(i) ==> i < scene.textures@.len() ==> surf.emissive == rules.times(
                mat.emissive,
                rules.bilinear(scene.textures@[i as int], uv),
            )
        }),
{
    assert(rules.difference(Scalar::one(), Scalar::zero()) == Scalar::one());
    assert(rules.difference(Scalar::one(), Scalar::one()) == Scalar::zero());
    let (a, b, c) = (hit.v0 as int, hit.v1 as int, hit.v2 as int);
    law_blend_has_corners(rules, bvh.normals@[a], bvh.normals@[b], bvh.normals@[c]);
    law_blend_has_corners(rules, bvh.colors@[a], bvh.colors@[b], bvh.colors@[c]);
    let patch = rules.patch_of(bvh, scene, hit);
    assert(patch.w == (if vertex == hit.v0 && hit.hit.u == Scalar::zero() && hit.hit.v == Scalar::zero() {
        Scalar::one()
    } else {
        Scalar::zero()
    }));
    let uv = rules.blend_uv(patch.uv0, patch.w, patch.uv1, patch.u, patch.uv2, patch.v);
    assert(uv == (if scene.materials@[hit.material as int].has_textures() {
        bvh.uvs@[vertex as int]
    } else {
        Vec2::zero()
    }));
}

/// A surface emits what its material does, whatever color its vertices have, and
/// keeps what its material says of glass.
pub proof fn law_surface_keeps_its_material(rules: ArithRules, hit: BvhHit, ray: Ray, bvh: Bvh, scene: Scene)
    ensures
        ({
            let mat = scene.materials@[hit.material as int];
            let surf = rules.surface(hit, ray, bvh, scene);
            &&& mat.emissive_texture is None ==> surf.emissive == mat.emissive
            &&& surf.transmission == mat.transmission
            &&& surf.ior == mat.ior
            &&& surf.thickness_factor == mat.thickness_factor
            &&& surf.attenuation_distance == mat.attenuation_distance
            &&& surf.attenuation_color == mat.attenuation_color
        }),
{
}

/// A hit lies on its ray: less the start of the ray, it is the direction, stretched
/// by the distance, wherever adding can be undone.
pub proof fn law_hit_lies_on_the_ray(rules: ArithRules, hit: BvhHit, ray: Ray, bvh: Bvh, scene: Scene)
    requires
        ({
            let way = rules.scaled(ray.dir, hit.hit.t);
            rules.minus(rules.plus(ray.org, way), ray.org) == way
        }),
    ensures
        rules.minus(rules.surface(hit, ray, bvh, scene).position, ray.org) == rules.scaled(ray.dir, hit.hit.t),
{
}

/// The geometric normal turns around with the winding of a triangle: with two
/// corners exchanged it looks to the other side.
pub proof fn law_winding_turns_the_normal(rules: ArithRules, hit: BvhHit, ray: Ray, bvh: Bvh, scene: Scene)
    requires
        rules.keeps_zeros(),
        rules.keeps_signs(),
        rules.commutes(),
        ({
            let p = rules.minus(bvh.vertices@[hit.v1 as int], bvh.vertices@[hit.v0 as int]);
            let q = rules.minus(bvh.vertices@[hit.v2 as int], bvh.vertices@[hit.v0 as int]);
            let n = rules.cross(p, q);
            &&& p.is_finite() && q.is_finite() && n.is_finite()
            &&& rules.product(p.y, q.z).is_finite() && rules.product(p.z, q.y).is_finite()
            &&& rules.product(p.z, q.x).is_finite() && rules.product(p.x, q.z).is_finite()
            &&& rules.product(p.x, q.y).is_finite() && rules.product(p.y, q.x).is_finite()
            &&& rules.norm(n).is_finite()
            &&& rules.dot(n.negated(), n.negated()) == rules.dot(n, n)
        }),
    ensures
        rules.surface(BvhHit { v1: hit.v2, v2: hit.v1, ..hit }, ray, bvh, scene).geo_normal == rules.surface(
            hit,
            ray,
            bvh,
            scene,
        ).geo_normal.negated(),
{
    let p = rules.minus(bvh.vertices@[hit.v1 as int], bvh.vertices@[hit.v0 as int]);
    let q = rules.minus(bvh.vertices@[hit.v2 as int], bvh.vertices@[hit.v0 as int]);
    law_cross_is_right_handed(rules, Scalar::zero(), Scalar::zero(), p, q);
}

/// A triangle whose corners run counterclockwise around the third axis faces along
/// it.
pub proof fn law_counterclockwise_faces_the_viewer(
    rules: ArithRules,
    hit: BvhHit,
    ray: Ray,
    bvh: Bvh,
    scene: Scene,
    a: Scalar,
    b: Scalar,
)
    requires
        rules.keeps_zeros(),
        rules.keeps_signs(),
        rules.commutes(),
        rules.keeps_selves(),
        rules.orders_products(),
        rules.minus(bvh.vertices@[hit.v1 as int], bvh.vertices@[hit.v0 as int]) == (Point3 {
            x: a,
            y: Scalar::zero(),
            z: Scalar::zero(),
        }),
        rules.minus(bvh.vertices@[hit.v2 as int], bvh.vertices@[hit.v0 as int]) == (Point3 {
            x: Scalar::zero(),
            y: b,
            z: Scalar::zero(),
        }),
        a.is_finite() && Scalar::zero().lt(a),
        b.is_finite() && Scalar::zero().lt(b),
        rules.product(a, b).is_finite() && Scalar::zero().lt(rules.product(a, b)),
        rules.root(rules.product(rules.product(a, b), rules.product(a, b))) == rules.product(a, b),
        rules.product(rules.product(a, b), rules.product(a, b)).ordered(),
    ensures
        rules.surface(hit, ray, bvh, scene).geo_normal == (Point3 {
            x: Scalar::zero(),
            y: Scalar::zero(),
            z: Scalar::one(),
        }),
{
    let o = Point3 { x: Scalar::zero(), y: Scalar::zero(), z: Scalar::zero() };
    law_cross_is_right_handed(rules, a, b, o, o);
    law_dot_counts_axes_alike(rules, rules.product(a, b), rules.product(a, b));
}

/// A normal map that is even leaves the normal: where its pixel is gray in the first
/// two channels and full in the third, wherever gray stands for nothing and full
/// for one.
pub proof fn law_even_normal_map_changes_nothing(
    rules: ArithRules,
    n: Point3,
    geo_normal: Point3,
    patch: Patch,
    pixel: Color,
    scale: Scalar,
    wo: Point3,
)
    requires
        rules.keeps_ones(),
        rules.keeps_zeros(),
        scale.is_finite(),
        n.is_finite(),
        rules.map_frame(n, patch).tangent.is_finite(),
        rules.map_frame(n, patch).bitangent.is_finite(),
        rules.signed(pixel.x) == Scalar::zero(),
        rules.signed(pixel.y) == Scalar::zero(),
        rules.signed(pixel.z) == Scalar::one(),
        !rules.dot(rules.unit(n), wo).le(Scalar::zero()),
    ensures
        rules.turned_normal(n, geo_normal, patch, pixel, scale, wo) == rules.unit(n),
{
    let frame = rules.map_frame(n, patch);
    law_blend_has_corners(rules, frame.tangent, frame.bitangent, n);
}

/// Red leans a normal along the first axis of the map and green along the second,
/// as far as the scale says: where only one of them is set, it alone counts, and
/// where the third channel is nothing the normal lies along that axis.
pub proof fn law_normal_map_leans_along_its_axes(
    rules: ArithRules,
    n: Point3,
    geo_normal: Point3,
    patch: Patch,
    pixel: Color,
    wo: Point3,
)
    requires
        rules.keeps_ones(),
        rules.keeps_zeros(),
        n.is_finite(),
        rules.map_frame(n, patch).tangent.is_finite(),
        rules.map_frame(n, patch).bitangent.is_finite(),
        rules.signed(pixel.z) == Scalar::zero(),
    ensures
        ({
            let r = rules.turned_normal(n, geo_normal, patch, pixel, Scalar::one(), wo);
            let frame = rules.map_frame(n, patch);
            &&& rules.signed(pixel.x) == Scalar::one() && rules.signed(pixel.y) == Scalar::zero() ==> r == geo_normal
                || r == rules.unit(frame.tangent)
            &&& rules.signed(pixel.x) == Scalar::zero() && rules.signed(pixel.y) == Scalar::one() ==> r == geo_normal
                || r == rules.unit(frame.bitangent)
        }),
{
    let frame = rules.map_frame(n, patch);
    law_blend_has_corners(rules, frame.tangent, frame.bitangent, n);
}

/// Channels of a normal map span from minus one to one: nothing is minus one, half
/// is nothing and full is one, wherever doubling half gives one and doubling one less
/// one gives one.
pub proof fn law_normal_map_spans_both_sides(rules: ArithRules, half: Scalar)
    requires
        rules.keeps_zeros(),
        rules.keeps_selves(),
        rules.product(half, Scalar { key: TWO_KEY }) == Scalar::one(),
        rules.product(Scalar::one(), Scalar { key: TWO_KEY }) == (Scalar { key: TWO_KEY }),
        rules.difference(Scalar { key: TWO_KEY }, Scalar::one()) == Scalar::one(),
        rules.difference(Scalar::zero(), Scalar::one()) == Scalar::one().negated(),
    ensures
        rules.signed(Scalar::zero()) == Scalar::one().negated(),
        rules.signed(half) == Scalar::zero(),
        rules.signed(Scalar::one()) == Scalar::one(),
{
}

/// The tangents of a mesh give its frame: at a corner, the tangent there, made unit
/// length across the normal, and the direction across both on the side of its sign.
pub proof fn law_mesh_tangents_give_the_frame(rules: ArithRules, n: Point3, patch: Patch)
    requires
        rules.keeps_ones(),
        rules.keeps_zeros(),
        (Scalar { key: TANGENT_SIGN_KEY }).lt(patch.t0.w.magnitude()),
        patch.t0.direction().is_finite(),
        patch.t1.direction().is_finite(),
        patch.t2.direction().is_finite(),
        patch.w == Scalar::one() && patch.u == Scalar::zero() && patch.v == Scalar::zero(),
        rules.dot(n, patch.t0.direction()) == Scalar::zero(),
        n.is_finite(),
        (Scalar { key: MIN_COSINE_KEY }).lt(rules.dot(patch.t0.direction(), patch.t0.direction())),
        rules.cross(n, rules.unit(patch.t0.direction())).is_finite(),
    ensures
        rules.map_frame(n, patch).tangent == rules.unit(patch.t0.direction()),
        patch.t0.w == Scalar::one() ==> rules.map_frame(n, patch).bitangent == rules.cross(
            n,
            rules.unit(patch.t0.direction()),
        ),
{
    let t = patch.t0.direction();
    law_blend_has_corners(rules, t, patch.t1.direction(), patch.t2.direction());
    assert(rules.minus(t, rules.scaled(n, Scalar::zero())) == t);
}

/// What lies across a normal is a vector without what lies along it: both together are
/// the vector, wherever taking away can be undone, and a vector that lies across stays.
pub proof fn law_across_and_along_make_the_vector(rules: ArithRules, n: Point3, t: Point3)
    requires
        rules.keeps_zeros(),
        n.is_finite(),
        t.is_finite(),
        ({
            let along = rules.scaled(n, rules.dot(n, t));
            rules.plus(rules.minus(t, along), along) == t
        }),
    ensures
        rules.plus(rules.across(n, t), rules.scaled(n, rules.dot(n, t))) == t,
        rules.dot(n, t) == Scalar::zero() ==> rules.across(n, t) == t,
{
    assert(rules.product(n.x, Scalar::zero()) == Scalar::zero());
    assert(rules.product(n.y, Scalar::zero()) == Scalar::zero());
    assert(rules.product(n.z, Scalar::zero()) == Scalar::zero());
}

/// Where a texture gives no tangent, one across the normal is taken: a normal that
/// points up gives one along the second axis, a normal along the first axis one along
/// the third.
pub proof fn law_some_tangent_lies_across(rules: ArithRules, c: Scalar)
    requires
        rules.keeps_ones(),
        rules.keeps_zeros(),
        c.is_finite(),
        rules.difference(Scalar::zero(), c) == c.negated(),
    ensures
        ({
            let o = Scalar::zero();
            let up = Point3 { x: o, y: o, z: c };
            let side = Point3 { x: c, y: o, z: o };
            &&& rules.any_tangent(up) == rules.unit(Point3 { x: o, y: c.negated(), z: o })
            &&& (Scalar { key: ALONG_AXIS_KEY }).le(c.magnitude()) ==> rules.any_tangent(side) == rules.unit(
                Point3 { x: o, y: o, z: c.negated() },
            )
        }),
{
    let o = Scalar::zero();
    let one = Scalar::one();
    assert(rules.product(o, c) == o && rules.product(o, o) == o && rules.product(one, c) == c && rules.product(one, o)
        == o);
    assert(rules.product(o, one) == o && rules.product(c, o) == o);
    assert(rules.difference(o, o) == o);
    assert(rules.cross(Point3 { x: one, y: o, z: o }, Point3 { x: o, y: o, z: c }) == Point3 { x: o, y: c.negated(), z: o });
    assert(rules.cross(Point3 { x: o, y: one, z: o }, Point3 { x: c, y: o, z: o }) == Point3 { x: o, y: o, z: c.negated() });
}

/// A vector is made unit length wherever it has a length to speak of.
pub proof fn law_short_vectors_are_replaced(rules: ArithRules, t: Point3, other: Point3)
    ensures
        (Scalar { key: MIN_COSINE_KEY }).lt(rules.dot(t, t)) ==> rules.unit_or(t, other) == rules.unit(t),
        rules.dot(t, t) == Scalar::zero() ==> rules.unit_or(t, other) == other,
{
}

/// A surface with a normal map is shaded as facing where its ray comes from, unless
/// its triangle does not face there either.
pub proof fn law_surface_faces_its_ray(rules: ArithRules, hit: BvhHit, ray: Ray, bvh: Bvh, scene: Scene)
    requires
        scene.materials@[hit.material as int].normal_texture matches Some(i) && i < scene.textures@.len(),
    ensures
        ({
            let s = rules.surface(hit, ray, bvh, scene);
            s.normal == s.geo_normal || !rules.dot(s.normal, ray.dir.negated()).le(Scalar::zero())
        }),
{
}

} // verus!
