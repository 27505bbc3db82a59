//! What a path tracer is set up with.
use std::sync::Arc;
use vstd::prelude::*;
use crate::accel::bvh::{Ray, RayRules};
use crate::arith::{Arith, ArithRules};
use crate::bvh::{described_hit, is_described, Bvh, BvhHit};
use crate::light::Light;
use crate::material::{can_be_shaded, is_corner};
use crate::nirc::mlp::NircMlp;
use crate::scene::{black, Camera, Color, Scene, Texture};
use crate::texture::are_complete;

verus! {

/// What has been gathered for a pixel.
#[derive(Clone, Copy, PartialEq, Eq, Structural, Debug)]
pub struct Pixel {
    pub accumulated_radiance: Color,
    pub samples: u32,
}

impl Default for Pixel {
    /// A pixel for which nothing has been gathered.
    fn default() -> (r: Pixel)
        ensures
            r == (Pixel { accumulated_radiance: black(), samples: 0 }),
    {
        Pixel { accumulated_radiance: black(), samples: 0 }
    }
}

/// Direct-lighting estimator. The first three are unbiased and converge to the
/// same image; `Mis` has the lowest variance for few lights.
#[derive(Clone, Copy, PartialEq, Eq, Structural, Debug)]
pub enum SamplingStrategy {
    /// Scattering only: emission on every hit; light samples for delta lights only
    /// (a scattered ray can never hit a point or directional light).
    BrdfOnly,
    /// Light samples only, emission counted on the camera ray only.
    NeeOnly,
    /// Multiple importance sampling (balance heuristic) of both.
    Mis,
    /// Incident radiance at the first bounce is inferred by a network.
    Nirc,
    /// Traces only the primary bounce (direct lighting and emission).
    DirectOnly,
}

/// What a path tracer is set up with.
#[derive(Clone)]
pub struct PathTracerConfig {
    pub width: usize,
    pub height: usize,
    pub camera: Camera,
    pub scene: Arc<Scene>,
    pub bvh: Arc<Bvh>,
    /// Unified light list: scene punctual lights, area lights, then the
    /// environment if there is one.
    pub lights: Arc<Vec<Light>>,
    /// Index of the environment in `lights`, if any. `None` is a black background.
    pub env: Option<usize>,
    pub strategy: SamplingStrategy,
    /// Active network for inference.
    pub nirc_network: Option<Arc<NircMlp>>,
}

/// Whether everything that a triangle refers to is there.
pub open spec fn is_shadeable(bvh: Bvh, scene: Scene) -> bool {
    forall|i: int|
        0 <= i < bvh.triangle_meta@.len() ==> (#[trigger] bvh.triangle_meta@[i]).material < scene.materials@.len()
            && is_corner(bvh, bvh.triangle_meta@[i].v0) && is_corner(bvh, bvh.triangle_meta@[i].v1) && is_corner(
            bvh,
            bvh.triangle_meta@[i].v2,
        )
}

/// Whether every light can be sampled.
pub open spec fn are_samplable(lights: Seq<Light>) -> bool {
    forall|i: int| 0 <= i < lights.len() ==> (#[trigger] lights[i]).can_be_sampled()
}

impl PathTracerConfig {
    /// Whether all that a path can meet is there.
    pub open spec fn valid(self) -> bool {
        &&& is_shadeable(*self.bvh, *self.scene)
        &&& are_complete(self.scene.textures@)
        &&& are_samplable(self.lights@)
        &&& self.lights@.len() <= u32::MAX
        &&& (self.env matches Some(i) ==> i < self.lights@.len())
        &&& (self.nirc_network matches Some(n) ==> n@.valid())
    }
}

/// Whether everything that a corner has is there.
fn check_corner(bvh: &Bvh, i: u32) -> (r: bool)
    ensures
        r == is_corner(*bvh, i),
{
    let i: usize = i as usize;
    i < bvh.vertices.len() && i < bvh.normals.len() && i < bvh.uvs.len() && i < bvh.colors.len()
}

/// Whether everything that a triangle refers to is there.
fn check_shadeable(bvh: &Bvh, scene: &Scene) -> (r: bool)
    ensures
        r == is_shadeable(*bvh, *scene),
{
    let mut i: usize = 0;
    while i < bvh.triangle_meta.len()
        invariant
            i <= bvh.triangle_meta.len(),
            forall|j: int|
                0 <= j < i ==> (#[trigger] bvh.triangle_meta@[j]).material < scene.materials@.len() && is_corner(
                    *bvh,
                    bvh.triangle_meta@[j].v0,
                ) && is_corner(*bvh, bvh.triangle_meta@[j].v1) && is_corner(*bvh, bvh.triangle_meta@[j].v2),
        decreases bvh.triangle_meta.len() - i,
    {
        let m = bvh.triangle_meta[i];
        assert(m == bvh.triangle_meta@[i as int]);
        if m.material as usize >= scene.materials.len() || !check_corner(bvh, m.v0) || !check_corner(bvh, m.v1)
            || !check_corner(bvh, m.v2) {
            return false;
        }
        i = i + 1;
    }
    true
}

/// Whether every texture is complete.
fn check_textures(textures: &Vec<Texture>) -> (r: bool)
    ensures
        r == are_complete(textures@),
{
    let mut i: usize = 0;
    while i < textures.len()
        invariant
            i <= textures.len(),
            forall|j: int| 0 <= j < i ==> (#[trigger] textures@[j]).is_complete(),
        decreases textures.len() - i,
    {
        if !textures[i].check_complete() {
            assert(!textures@[i as int].is_complete());
            return false;
        }
        i = i + 1;
    }
    true
}

/// Whether every light can be sampled.
fn check_lights(lights: &Vec<Light>) -> (r: bool)
    ensures
        r == are_samplable(lights@),
{
    let mut i: usize = 0;
    while i < lights.len()
        invariant
            i <= lights.len(),
            forall|j: int| 0 <= j < i ==> (#[trigger] lights@[j]).can_be_sampled(),
        decreases lights.len() - i,
    {
        if !lights[i].check_sampling() {
            assert(!lights@[i as int].can_be_sampled());
            return false;
        }
        i = i + 1;
    }
    true
}

impl PathTracerConfig {
    /// Whether all that a path can meet is there.
    pub fn check(&self) -> (r: bool)
        ensures
            r == self.valid(),
    {
        let env_fits = match self.env {
            Some(i) => i < self.lights.len(),
            None => true,
        };
        let network_fits = match &self.nirc_network {
            Some(n) => n.check_layers(),
            None => true,
        };
        env_fits && network_fits && self.lights.len() as u64 <= u32::MAX as u64 && check_lights(&self.lights)
            && check_textures(&self.scene.textures) && check_shadeable(&self.bvh, &self.scene)
    }
}

/// The arithmetic of paths and of rays.
pub struct TraceRules {
    pub arith: ArithRules,
    pub rays: RayRules,
}

impl TraceRules {
    /// Whether an implementation computes by these rules.
    pub open spec fn describe<M: Arith>(self, math: M) -> bool {
        self.arith.describe(math) && self.rays == self.arith.ray_rules()
    }

    /// The nearest hit of a ray.
    pub open spec fn hit(self, bvh: Bvh, ray: Ray) -> Option<BvhHit> {
        match bvh.accel.tree() {
            Some(inner) => match inner.nearest(self.rays, (self.rays.internal)(ray)) {
                Some(hit) => described_hit(bvh.triangle_meta@, hit),
                None => None,
            },
            None => None,
        }
    }

    /// Whether something lies on a ray.
    pub open spec fn is_blocked(self, bvh: Bvh, ray: Ray) -> bool {
        match bvh.accel.tree() {
            Some(inner) => inner.is_hit(self.rays, (self.rays.internal)(ray)),
            None => false,
        }
    }
}

/// The nearest hit of a ray.
pub fn find_hit<M: Arith>(math: &M, cfg: &PathTracerConfig, ray: &Ray) -> (r: Option<BvhHit>)
    requires
        cfg.valid(),
    ensures
        r matches Some(hit) ==> can_be_shaded(*cfg.bvh, *cfg.scene, hit),
        forall|rules: TraceRules| #[trigger] rules.describe(*math) ==> r == rules.hit(*cfg.bvh, *ray),
{
    let r = cfg.bvh.intersect(math, ray);
    proof {
        if let Some(hit) = r {
            assert(is_described(cfg.bvh.triangle_meta@, hit));
        }
        assert forall|rules: TraceRules| #[trigger] rules.describe(*math) implies r == rules.hit(
            *cfg.bvh,
            *ray,
        ) by {
            reveal(RayRules::describe);
            assert(rules.rays.describe(*math));
        }
    }
    r
}

/// Whether something lies on a ray.
pub fn find_blocked<M: Arith>(math: &M, cfg: &PathTracerConfig, ray: &Ray) -> (r: bool)
    ensures
        forall|rules: TraceRules| #[trigger] rules.describe(*math) ==> r == rules.is_blocked(*cfg.bvh, *ray),
{
    let r = cfg.bvh.is_occluded(math, ray);
    proof {
        assert forall|rules: TraceRules| #[trigger] rules.describe(*math) implies r == rules.is_blocked(
            *cfg.bvh,
            *ray,
        ) by {
            reveal(RayRules::describe);
            assert(rules.rays.describe(*math));
        }
    }
    r
}

} // verus!
