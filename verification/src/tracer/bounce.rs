//! What happens to a path at one vertex.
use vstd::prelude::*;
use crate::accel::bvh::Ray;
use crate::arith::{dot, plus, scaled, shrunk, times, unit, Arith, ArithRules};
use crate::bvh::BvhHit;
use crate::glass::{sample_glass, Boundary};
use crate::light::{Light, LightSample};
use crate::material::SurfaceInteraction;
use crate::nirc::encoding::encode_inputs;
use crate::pcg32::{Pcg32, Stream};
use crate::scalar::{Point3, Scalar};
use crate::scene::{black, white, Color, Texture};
use crate::tracer::config::{PathTracerConfig, SamplingStrategy, TraceRules};
use crate::tracer::direct::{compute_direct_lighting, Lit, ShadingPoint, RAY_EPSILON_KEY};

verus! {

/// Russian roulette only kicks in after this many bounces.
pub const RR_START_BOUNCE: u32 = 3;

/// Key of the least probability at which roulette ends a path.
pub const RR_MIN_Q_KEY: i32 = 0x3d4c_cccd;

/// Key of the density that stands for a mirror's: so great that light sampling
/// gets no share.
pub const MIRROR_PDF_KEY: i32 = 0x7149_f2ca;

/// A path on its way.
#[derive(Clone, Copy, PartialEq, Eq, Structural, Debug)]
pub struct Walk {
    pub ray: Ray,
    /// What the path still lets through.
    pub throughput: Color,
    /// What has been gathered.
    pub radiance: Color,
    /// Density of the scattering that led to the current vertex; 0 for the camera
    /// ray.
    pub bsdf_pdf: Scalar,
    pub shadow_rays: u64,
}

/// A path on its way, with the random numbers that lie ahead.
#[verifier::ext_equal]
pub struct Trail {
    pub ray: Ray,
    pub throughput: Color,
    pub radiance: Color,
    pub bsdf_pdf: Scalar,
    pub shadow_rays: nat,
    pub rng: Stream,
}

impl Walk {
    /// The path with its random numbers.
    pub open spec fn with_rng(self, rng: Stream) -> Trail {
        Trail {
            ray: self.ray,
            throughput: self.throughput,
            radiance: self.radiance,
            bsdf_pdf: self.bsdf_pdf,
            shadow_rays: self.shadow_rays as nat,
            rng,
        }
    }
}

/// What comes of a vertex: the path, and whether it goes on.
#[verifier::ext_equal]
pub struct Turn {
    pub trail: Trail,
    pub goes_on: bool,
}

/// The random stream after roulette.
pub open spec fn roulette_rng(bounce: u32, rng: Stream) -> Stream {
    if bounce <= RR_START_BOUNCE {
        rng
    } else {
        rng.next()
    }
}

impl ArithRules {
    /// The probability at which roulette ends a path: the darker, the likelier.
    pub open spec fn end_probability(self, throughput: Color) -> Scalar {
        self.difference(Scalar::one(), throughput.x.max(throughput.y).max(throughput.z)).max(
            Scalar { key: RR_MIN_Q_KEY },
        )
    }

    /// Russian roulette: what a path lets through afterwards, made up for the paths
    /// that end; none if the path ends.
    pub open spec fn roulette(self, throughput: Color, bounce: u32, rng: Stream) -> Option<Color> {
        if bounce <= RR_START_BOUNCE {
            Some(throughput)
        } else {
            let q = self.end_probability(throughput);
            if rng.value().lt(q) {
                None
            } else {
                Some(self.shrunk(throughput, self.difference(Scalar::one(), q)))
            }
        }
    }

    /// The share of scattering in what it and light sampling both find; all of it
    /// if neither has a density.
    pub open spec fn scattering_share(self, bsdf_pdf: Scalar, light_pdf: Scalar) -> Scalar {
        let denom = self.sum(bsdf_pdf, light_pdf);
        if Scalar::zero().lt(denom) {
            self.quotient(bsdf_pdf, denom)
        } else {
            Scalar::one()
        }
    }

    /// The weight of light that a ray runs into. The camera ray takes it whole;
    /// later ones whole, not at all, or shared with light sampling.
    pub open spec fn found_weight(
        self,
        strategy: SamplingStrategy,
        bounce: u32,
        bsdf_pdf: Scalar,
        light_pdf: Scalar,
    ) -> Scalar {
        match strategy {
            SamplingStrategy::BrdfOnly | SamplingStrategy::DirectOnly => Scalar::one(),
            SamplingStrategy::NeeOnly => if bounce == 0 {
                Scalar::one()
            } else {
                Scalar::zero()
            },
            SamplingStrategy::Mis | SamplingStrategy::Nirc => if bounce == 0 {
                Scalar::one()
            } else {
                self.scattering_share(bsdf_pdf, light_pdf)
            },
        }
    }

    /// What a path that escapes gathers: the environment along its direction.
    pub open spec fn escaped(
        self,
        cfg: PathTracerConfig,
        strategy: SamplingStrategy,
        bounce: u32,
        walk: Walk,
    ) -> Color {
        match cfg.env {
            None => walk.radiance,
            Some(i) => {
                let env = cfg.lights@[i as int];
                let w = self.found_weight(
                    strategy,
                    bounce,
                    walk.bsdf_pdf,
                    self.escape_pdf(env, walk.ray.dir),
                );
                self.plus(
                    walk.radiance,
                    self.scaled(self.times(walk.throughput, self.background(env, walk.ray.dir)), w),
                )
            },
        }
    }

    /// The density at which lights sample the hit point.
    pub open spec fn hit_light_pdf(
        self,
        lights: Seq<Light>,
        surf: SurfaceInteraction,
        hit: BvhHit,
        wo: Point3,
    ) -> Scalar {
        if hit.light < lights.len() {
            self.surface_pdf(
                lights[hit.light as int],
                self.product(hit.hit.t, hit.hit.t),
                self.dot(surf.geo_normal, wo).max(Scalar::zero()),
            )
        } else {
            Scalar::zero()
        }
    }

    /// What the surface itself emits toward the path.
    pub open spec fn emission(
        self,
        cfg: PathTracerConfig,
        strategy: SamplingStrategy,
        bounce: u32,
        surf: SurfaceInteraction,
        hit: BvhHit,
        wo: Point3,
        bsdf_pdf: Scalar,
    ) -> Color {
        if surf.emissive == black() {
            black()
        } else {
            self.scaled(
                surf.emissive,
                self.found_weight(strategy, bounce, bsdf_pdf, self.hit_light_pdf(cfg.lights@, surf, hit, wo)),
            )
        }
    }

    /// What the network infers for a ray; black without a network.
    pub open spec fn inferred(self, cfg: PathTracerConfig, ray: Ray) -> Color {
        match cfg.nirc_network {
            Some(net) => {
                let out = self.forward(
                    net@,
                    self.features(ray.org, ray.dir, cfg.bvh.bounds_min, cfg.bvh.bounds_max),
                );
                Point3 {
                    x: out[0].max(Scalar::zero()),
                    y: out[1].max(Scalar::zero()),
                    z: out[2].max(Scalar::zero()),
                }
            },
            None => black(),
        }
    }

    /// A color channel, faded over a distance.
    pub open spec fn faded(self, color: Color, depth: Scalar) -> Color {
        Point3 { x: self.power(color.x, depth), y: self.power(color.y, depth), z: self.power(color.z, depth) }
    }

    /// What a dielectric tints what it transmits with: its color where a path goes
    /// in, what its volume leaves of white where the path comes out.
    pub open spec fn tint(self, surf: SurfaceInteraction, t: Scalar, is_exit: bool) -> Color {
        if Scalar::zero().lt(surf.thickness_factor) && is_exit {
            let d = surf.attenuation_distance;
            if d.is_finite() && Scalar::zero().lt(d) {
                self.faded(surf.attenuation_color, self.quotient(t, d))
            } else {
                white()
            }
        } else {
            surf.albedo
        }
    }

    /// The boundary that a path meets at a dielectric. The normal is turned to the
    /// side that the path comes from.
    pub open spec fn boundary(self, surf: SurfaceInteraction, hit: BvhHit, wo: Point3) -> Boundary {
        let is_exit = self.dot(surf.geo_normal, wo).lt(Scalar::zero());
        Boundary {
            n: if is_exit {
                surf.normal.negated()
            } else {
                surf.normal
            },
            wo,
            roughness: surf.roughness,
            ior: surf.ior,
            tint: self.tint(surf, hit.hit.t, is_exit),
            is_exit,
            thick: Scalar::zero().lt(surf.thickness_factor),
        }
    }

    /// A path at a dielectric: reflected or transmitted, then roulette.
    pub open spec fn dielectric_turn(
        self,
        surf: SurfaceInteraction,
        hit: BvhHit,
        bounce: u32,
        trail: Trail,
    ) -> Turn {
        let b = self.boundary(surf, hit, trail.ray.dir.negated());
        let rng = self.glass_rng(b, trail.rng);
        match self.glass_sample(b, trail.rng) {
            None => Turn { trail: Trail { rng, ..trail }, goes_on: false },
            Some(gs) => {
                let throughput = self.times(trail.throughput, gs.weight);
                let next = Trail {
                    ray: Ray {
                        org: surf.position,
                        dir: self.unit(gs.wi),
                        tmin: Scalar { key: RAY_EPSILON_KEY },
                        tmax: Scalar::infinity(),
                    },
                    throughput,
                    bsdf_pdf: Scalar { key: MIRROR_PDF_KEY },
                    rng: roulette_rng(bounce, rng),
                    ..trail
                };
                match self.roulette(throughput, bounce, rng) {
                    None => Turn { trail: next, goes_on: false },
                    Some(throughput) => Turn { trail: Trail { throughput, ..next }, goes_on: true },
                }
            },
        }
    }

    /// A path that scatters at an opaque surface, then roulette.
    pub open spec fn scatter_turn(self, surf: SurfaceInteraction, bounce: u32, trail: Trail) -> Turn {
        let wo = trail.ray.dir.negated();
        let rng = surf.brdf().rng_after(trail.rng);
        match self.brdf_sample(surf.brdf(), surf.normal, wo, trail.rng) {
            None => Turn { trail: Trail { rng, ..trail }, goes_on: false },
            Some(bs) => {
                let cos_theta = self.dot(surf.normal, bs.wi).max(Scalar::zero());
                if bs.pdf.le(Scalar::zero()) || cos_theta.le(Scalar::zero()) {
                    Turn { trail: Trail { rng, ..trail }, goes_on: false }
                } else {
                    let throughput = self.times(
                        trail.throughput,
                        self.scaled(bs.f, self.quotient(cos_theta, bs.pdf)),
                    );
                    let next = Trail {
                        ray: Ray {
                            org: surf.position,
                            dir: bs.wi,
                            tmin: Scalar::zero(),
                            tmax: Scalar::infinity(),
                        },
                        throughput,
                        bsdf_pdf: bs.pdf,
                        rng: roulette_rng(bounce, rng),
                        ..trail
                    };
                    match self.roulette(throughput, bounce, rng) {
                        None => Turn { trail: next, goes_on: false },
                        Some(throughput) => Turn { trail: Trail { throughput, ..next }, goes_on: true },
                    }
                }
            },
        }
    }
}

/// Whether a path ends at this vertex, with what the network infers there.
pub open spec fn is_inferred(strategy: SamplingStrategy, bounce: u32) -> bool {
    strategy == SamplingStrategy::Nirc && bounce == 1
}

/// The point of a path that is to be lit.
pub open spec fn shading_point(surf: SurfaceInteraction, wo: Point3) -> ShadingPoint {
    ShadingPoint { position: surf.position, normal: surf.normal, brdf: surf.brdf(), wo }
}

impl TraceRules {
    /// The light that an opaque surface sends along the path, other than its own:
    /// inferred, or from all lights.
    pub open spec fn reflected(
        self,
        cfg: PathTracerConfig,
        strategy: SamplingStrategy,
        bounce: u32,
        surf: SurfaceInteraction,
        trail: Trail,
    ) -> Lit {
        if is_inferred(strategy, bounce) {
            Lit { total: self.arith.inferred(cfg, trail.ray), shadow_rays: 0, rng: trail.rng }
        } else {
            self.direct(cfg, strategy, shading_point(surf, trail.ray.dir.negated()), trail.rng)
        }
    }

    /// A path at an opaque surface: it gathers what the surface emits and reflects,
    /// then scatters, unless the network has answered for the rest.
    pub open spec fn opaque_turn(
        self,
        cfg: PathTracerConfig,
        strategy: SamplingStrategy,
        bounce: u32,
        surf: SurfaceInteraction,
        hit: BvhHit,
        trail: Trail,
    ) -> Turn {
        let wo = trail.ray.dir.negated();
        let emission = self.arith.emission(cfg, strategy, bounce, surf, hit, wo, trail.bsdf_pdf);
        let lit = self.reflected(cfg, strategy, bounce, surf, trail);
        let gathered = Trail {
            radiance: self.arith.plus(
                trail.radiance,
                self.arith.times(trail.throughput, self.arith.plus(emission, lit.total)),
            ),
            shadow_rays: trail.shadow_rays + lit.shadow_rays,
            rng: lit.rng,
            ..trail
        };
        if is_inferred(strategy, bounce) {
            Turn { trail: gathered, goes_on: false }
        } else {
            self.arith.scatter_turn(surf, bounce, gathered)
        }
    }
}

/// Russian roulette: unbiasedly end low-energy paths. Returns what the path lets
/// through afterwards, or none if it ends.
pub fn russian_roulette<M: Arith>(math: &M, throughput: Color, bounce: u32, rng: &mut Pcg32) -> (r: Option<Color>)
    ensures
        final(rng)@ == roulette_rng(bounce, old(rng)@),
        bounce <= RR_START_BOUNCE ==> r == Some(throughput),
        forall|rules: ArithRules| #[trigger]
            rules.describe(*math) ==> r == rules.roulette(throughput, bounce, old(rng)@),
{
    if bounce <= RR_START_BOUNCE {
        return Some(throughput);
    }
    let max_channel = throughput.x.max(throughput.y).max(throughput.z);
    let q = math.difference(Scalar::one(), max_channel).max(Scalar { key: RR_MIN_Q_KEY });
    if rng.next_f32().lt(q) {
        return None;
    }
    Some(shrunk(math, throughput, math.difference(Scalar::one(), q)))
}

/// The share of scattering in what it and light sampling both find.
fn share<M: Arith>(math: &M, bsdf_pdf: Scalar, light_pdf: Scalar) -> (r: Scalar)
    ensures
        forall|rules: ArithRules| #[trigger] rules.describe(*math) ==> r == rules.scattering_share(bsdf_pdf, light_pdf),
{
    let denom = math.sum(bsdf_pdf, light_pdf);
    if Scalar::zero().lt(denom) {
        math.quotient(bsdf_pdf, denom)
    } else {
        Scalar::one()
    }
}

/// What a path that escapes has gathered in the end.
pub fn handle_environment_hit<M: Arith>(
    math: &M,
    cfg: &PathTracerConfig,
    strategy: SamplingStrategy,
    bounce: u32,
    walk: Walk,
) -> (r: Color)
    requires
        cfg.valid(),
    ensures
        cfg.env is None ==> r == walk.radiance,
        forall|rules: ArithRules| #[trigger]
            rules.describe(*math) ==> r == rules.escaped(*cfg, strategy, bounce, walk),
{
    match cfg.env {
        None => walk.radiance,
        Some(i) => {
            let env = &cfg.lights[i];
            assert(cfg.lights@[i as int].can_be_sampled());
            let dir = walk.ray.dir;
            let w = match strategy {
                SamplingStrategy::BrdfOnly | SamplingStrategy::DirectOnly => Scalar::one(),
                SamplingStrategy::NeeOnly => {
                    if bounce == 0 {
                        Scalar::one()
                    } else {
                        Scalar::zero()
                    }
                },
                SamplingStrategy::Mis | SamplingStrategy::Nirc => {
                    if bounce == 0 {
                        Scalar::one()
                    } else {
                        share(math, walk.bsdf_pdf, env.env_pdf(math, dir))
                    }
                },
            };
            let seen = times(math, walk.throughput, env.radiance(math, dir));
            plus(math, walk.radiance, scaled(math, seen, w))
        },
    }
}

/// The boundary that a path meets at a dielectric.
fn make_boundary<M: Arith>(math: &M, surf: &SurfaceInteraction, hit: &BvhHit, wo: Point3) -> (r: Boundary)
    ensures
        forall|rules: ArithRules| #[trigger] rules.describe(*math) ==> r == rules.boundary(*surf, *hit, wo),
{
    let is_exit: bool = dot(math, surf.geo_normal, wo).lt(Scalar::zero());
    let thick: bool = Scalar::zero().lt(surf.thickness_factor);
    let n = if is_exit {
        surf.normal.negated()
    } else {
        surf.normal
    };
    let tint = if thick && is_exit {
        let d = surf.attenuation_distance;
        if d.is_finite() && Scalar::zero().lt(d) {
            let depth = math.quotient(hit.hit.t, d);
            let c = surf.attenuation_color;
            Point3 { x: math.power(c.x, depth), y: math.power(c.y, depth), z: math.power(c.z, depth) }
        } else {
            white()
        }
    } else {
        surf.albedo
    };
    Boundary { n, wo, roughness: surf.roughness, ior: surf.ior, tint, is_exit, thick }
}

/// A path at a dielectric. Returns the path afterwards and whether it goes on.
pub fn handle_dielectric_bounce<M: Arith>(
    math: &M,
    surf: &SurfaceInteraction,
    hit: &BvhHit,
    bounce: u32,
    walk: Walk,
    rng: &mut Pcg32,
) -> (r: (Walk, bool))
    ensures
        r.0.shadow_rays == walk.shadow_rays,
        r.0.radiance == walk.radiance,
        forall|rules: ArithRules| #[trigger]
            rules.describe(*math) ==> rules.dielectric_turn(*surf, *hit, bounce, walk.with_rng(old(rng)@)) == (Turn {
                trail: r.0.with_rng(final(rng)@),
                goes_on: r.1,
            }),
{
    let b = make_boundary(math, surf, hit, walk.ray.dir.negated());
    match sample_glass(math, b, rng) {
        None => (walk, false),
        Some(gs) => {
            let throughput = times(math, walk.throughput, gs.weight);
            let next = Walk {
                ray: Ray::new_with_minmax(
                    surf.position,
                    unit(math, gs.wi),
                    Scalar { key: RAY_EPSILON_KEY },
                    Scalar::infinity(),
                ),
                throughput,
                radiance: walk.radiance,
                bsdf_pdf: Scalar { key: MIRROR_PDF_KEY },
                shadow_rays: walk.shadow_rays,
            };
            match russian_roulette(math, throughput, bounce, rng) {
                None => (next, false),
                Some(t) => (Walk { throughput: t, ..next }, true),
            }
        },
    }
}

/// What the surface itself emits toward the path.
fn emit<M: Arith>(
    math: &M,
    cfg: &PathTracerConfig,
    strategy: SamplingStrategy,
    bounce: u32,
    surf: &SurfaceInteraction,
    hit: &BvhHit,
    wo: Point3,
    bsdf_pdf: Scalar,
) -> (r: Color)
    ensures
        forall|rules: ArithRules| #[trigger]
            rules.describe(*math) ==> r == rules.emission(*cfg, strategy, bounce, *surf, *hit, wo, bsdf_pdf),
{
    if surf.emissive == black() {
        return black();
    }
    let w = match strategy {
        SamplingStrategy::BrdfOnly | SamplingStrategy::DirectOnly => Scalar::one(),
        SamplingStrategy::NeeOnly => {
            if bounce == 0 {
                Scalar::one()
            } else {
                Scalar::zero()
            }
        },
        SamplingStrategy::Mis | SamplingStrategy::Nirc => {
            if bounce == 0 {
                Scalar::one()
            } else {
                let p_l = if (hit.light as usize) < cfg.lights.len() {
                    let cos_l = dot(math, surf.geo_normal, wo).max(Scalar::zero());
                    cfg.lights[hit.light as usize].area_pdf(math, math.product(hit.hit.t, hit.hit.t), cos_l)
                } else {
                    Scalar::zero()
                };
                share(math, bsdf_pdf, p_l)
            }
        },
    };
    scaled(math, surf.emissive, w)
}

/// What the network infers for a ray; black without a network.
fn infer<M: Arith>(math: &M, cfg: &PathTracerConfig, ray: &Ray) -> (r: Color)
    requires
        cfg.valid(),
    ensures
        cfg.nirc_network is None ==> r == black(),
        forall|rules: ArithRules| #[trigger] rules.describe(*math) ==> r == rules.inferred(*cfg, *ray),
{
    match &cfg.nirc_network {
        Some(net) => {
            let input = encode_inputs(math, &ray.org, &ray.dir, &cfg.bvh.bounds_min, &cfg.bvh.bounds_max);
            let list = to_list(&input);
            let out = net.forward(math, &list);
            Point3 { x: out[0].max(Scalar::zero()), y: out[1].max(Scalar::zero()), z: out[2].max(Scalar::zero()) }
        },
        None => black(),
    }
}

/// Features as a list.
pub fn to_list(input: &[Scalar; 9]) -> (r: Vec<Scalar>)
    ensures
        r@ == input@,
{
    let mut list: Vec<Scalar> = Vec::new();
    let mut i: usize = 0;
    while i < 9
        invariant
            i <= 9,
            list.len() == i,
            forall|j: int| 0 <= j < i ==> list@[j] == input@[j],
        decreases 9 - i,
    {
        list.push(input[i]);
        i = i + 1;
    }
    assert(list@ =~= input@);
    list
}

/// A path that scatters at an opaque surface, then roulette.
fn scatter<M: Arith>(math: &M, surf: &SurfaceInteraction, bounce: u32, walk: Walk, rng: &mut Pcg32) -> (r: (Walk, bool))
    ensures
        r.0.shadow_rays == walk.shadow_rays,
        forall|rules: ArithRules| #[trigger]
            rules.describe(*math) ==> rules.scatter_turn(*surf, bounce, walk.with_rng(old(rng)@)) == (Turn {
                trail: r.0.with_rng(final(rng)@),
                goes_on: r.1,
            }),
{
    let wo = walk.ray.dir.negated();
    match surf.brdf().sample(math, surf.normal, wo, rng) {
        None => (walk, false),
        Some(bs) => {
            let cos_theta = dot(math, surf.normal, bs.wi).max(Scalar::zero());
            if bs.pdf.le(Scalar::zero()) || cos_theta.le(Scalar::zero()) {
                return (walk, false);
            }
            let throughput = times(math, walk.throughput, scaled(math, bs.f, math.quotient(cos_theta, bs.pdf)));
            let next = Walk {
                ray: Ray::new(surf.position, bs.wi),
                throughput,
                radiance: walk.radiance,
                bsdf_pdf: bs.pdf,
                shadow_rays: walk.shadow_rays,
            };
            match russian_roulette(math, throughput, bounce, rng) {
                None => (next, false),
                Some(t) => (Walk { throughput: t, ..next }, true),
            }
        },
    }
}

/// A path at an opaque surface. Returns the path afterwards and whether it goes on.
pub fn handle_opaque_bounce<M: Arith>(
    math: &M,
    cfg: &PathTracerConfig,
    strategy: SamplingStrategy,
    bounce: u32,
    surf: &SurfaceInteraction,
    hit: &BvhHit,
    walk: Walk,
    rng: &mut Pcg32,
) -> (r: (Walk, bool))
    requires
        cfg.valid(),
        walk.shadow_rays + cfg.lights@.len() <= u64::MAX,
    ensures
        r.0.shadow_rays <= walk.shadow_rays + cfg.lights@.len(),
        forall|rules: TraceRules| #[trigger]
            rules.describe(*math) ==> rules.opaque_turn(
                *cfg,
                strategy,
                bounce,
                *surf,
                *hit,
                walk.with_rng(old(rng)@),
            ) == (Turn { trail: r.0.with_rng(final(rng)@), goes_on: r.1 }),
{
    let wo = walk.ray.dir.negated();
    let emission = emit(math, cfg, strategy, bounce, surf, hit, wo, walk.bsdf_pdf);
    let inferred: bool = strategy == SamplingStrategy::Nirc && bounce == 1;
    let (direct, shadow_rays): (Color, u64) = if inferred {
        (infer(math, cfg, &walk.ray), 0)
    } else {
        let at = ShadingPoint { position: surf.position, normal: surf.normal, brdf: surf.brdf(), wo };
        compute_direct_lighting(math, cfg, strategy, at, rng)
    };
    let gathered = times(math, walk.throughput, plus(math, emission, direct));
    let next = Walk {
        radiance: plus(math, walk.radiance, gathered),
        shadow_rays: walk.shadow_rays + shadow_rays,
        ..walk
    };
    proof {
        assert forall|rules: TraceRules| #[trigger] rules.describe(*math) implies rules.arith.describe(
            *math,
        ) by {}
    }
    if inferred {
        return (next, false);
    }
    let ghost after = rng@;
    let r = scatter(math, surf, bounce, next, rng);
    proof {
        assert forall|rules: TraceRules| #[trigger] rules.describe(*math) implies rules.opaque_turn(
            *cfg,
            strategy,
            bounce,
            *surf,
            *hit,
            walk.with_rng(old(rng)@),
        ) == (Turn { trail: r.0.with_rng(rng@), goes_on: r.1 }) by {
            assert(rules.arith.describe(*math));
            let trail = walk.with_rng(old(rng)@);
            let lit = rules.reflected(*cfg, strategy, bounce, *surf, trail);
            assert(lit == (Lit { total: direct, shadow_rays: shadow_rays as nat, rng: after }));
            assert(next.with_rng(after) == (Trail {
                radiance: next.radiance,
                shadow_rays: trail.shadow_rays + lit.shadow_rays,
                rng: lit.rng,
                ..trail
            }));
        }
    }
    r
}

/// The camera ray takes the light that it runs into whole, under every strategy.
pub proof fn law_camera_sees_light_whole(rules: ArithRules, strategy: SamplingStrategy, bsdf_pdf: Scalar, light_pdf: Scalar)
    ensures
        rules.found_weight(strategy, 0, bsdf_pdf, light_pdf) == Scalar::one(),
{
}

/// No path ends by roulette before its fourth bounce.
pub proof fn law_early_bounces_survive(rules: ArithRules, throughput: Color, bounce: u32, rng: Stream)
    requires
        bounce <= RR_START_BOUNCE,
    ensures
        rules.roulette(throughput, bounce, rng) == Some(throughput),
{
}

/// With both techniques, the weight of a light sample and the weight of light that
/// scattering in the same direction runs into are one together, wherever the order
/// of a sum does not matter, shares of a whole may be added before they are
/// divided, and a number goes into itself once.
pub proof fn law_weights_sum_to_one(rules: ArithRules, light: Light, at: ShadingPoint, s: LightSample, bounce: u32)
    requires
        !light.is_delta(),
        bounce > 0,
        ({
            let a = s.pdf;
            let b = rules.brdf_pdf(at.brdf, at.normal, at.wo, s.wi);
            let whole = rules.sum(a, b);
            &&& Scalar::zero().lt(whole)
            &&& rules.sum(b, a) == whole
            &&& rules.sum(rules.quotient(a, whole), rules.quotient(b, whole)) == rules.quotient(rules.sum(a, b), whole)
            &&& rules.quotient(whole, whole) == Scalar::one()
        }),
    ensures
        rules.sum(
            rules.light_weight(SamplingStrategy::Mis, light, at, s),
            rules.found_weight(
                SamplingStrategy::Mis,
                bounce,
                rules.brdf_pdf(at.brdf, at.normal, at.wo, s.wi),
                s.pdf,
            ),
        ) == Scalar::one(),
{
}

/// What a path adds when it escapes. A camera ray, and every ray that scattering
/// alone has to find light with, adds the sky whole. With light sampling alone, a
/// scattered ray adds nothing, wherever zero leaves nothing as a factor. With both,
/// it adds the part that its own density has in the sum of both densities.
pub proof fn law_escape_adds_its_part_of_the_sky(
    rules: ArithRules,
    cfg: PathTracerConfig,
    strategy: SamplingStrategy,
    bounce: u32,
    walk: Walk,
    i: usize,
)
    requires
        cfg.env == Some(i),
        rules.keeps_ones(),
        rules.keeps_zeros(),
        rules.times(walk.throughput, rules.background(cfg.lights@[i as int], walk.ray.dir)).is_finite(),
        strategy == SamplingStrategy::Mis || strategy == SamplingStrategy::Nirc ==> {
            let seen = rules.times(walk.throughput, rules.background(cfg.lights@[i as int], walk.ray.dir));
            let both = rules.sum(walk.bsdf_pdf, rules.escape_pdf(cfg.lights@[i as int], walk.ray.dir));
            Scalar::zero().lt(both) && rules.undoes_parts(seen, walk.bsdf_pdf, both)
        },
    ensures
        ({
            let seen = rules.times(walk.throughput, rules.background(cfg.lights@[i as int], walk.ray.dir));
            let both = rules.sum(walk.bsdf_pdf, rules.escape_pdf(cfg.lights@[i as int], walk.ray.dir));
            exists|added: Color|
                rules.escaped(cfg, strategy, bounce, walk) == #[trigger] rules.plus(walk.radiance, added) && if bounce
                    == 0 {
                    added == seen
                } else {
                    match strategy {
                        SamplingStrategy::BrdfOnly | SamplingStrategy::DirectOnly => added == seen,
                        SamplingStrategy::NeeOnly => added == black(),
                        SamplingStrategy::Mis | SamplingStrategy::Nirc => rules.scaled(added, both) == rules.scaled(
                            seen,
                            walk.bsdf_pdf,
                        ),
                    }
                }
        }),
{
    let env = cfg.lights@[i as int];
    let seen = rules.times(walk.throughput, rules.background(env, walk.ray.dir));
    let w = rules.found_weight(strategy, bounce, walk.bsdf_pdf, rules.escape_pdf(env, walk.ray.dir));
    let added = rules.scaled(seen, w);
    assert(rules.escaped(cfg, strategy, bounce, walk) == rules.plus(walk.radiance, added));
    assert(rules.scaled(seen, Scalar::one()) == seen);
    assert(rules.scaled(seen, Scalar::zero()) == black());
}

/// With both techniques, sky light is counted once: what a scattered ray adds when
/// it escapes, and the weighted share of a light sample in the same direction, make
/// the sky whole together.
pub proof fn law_sky_is_counted_once(
    rules: ArithRules,
    cfg: PathTracerConfig,
    bounce: u32,
    walk: Walk,
    i: usize,
    at: ShadingPoint,
    s: LightSample,
)
    requires
        cfg.env == Some(i),
        cfg.lights@[i as int] is Environment,
        bounce > 0,
        walk.radiance == black(),
        s.wi == walk.ray.dir,
        s.pdf == rules.escape_pdf(cfg.lights@[i as int], s.wi),
        s.li == rules.background(cfg.lights@[i as int], s.wi),
        walk.bsdf_pdf == rules.brdf_pdf(at.brdf, at.normal, at.wo, s.wi),
        ({
            let seen = rules.times(walk.throughput, s.li);
            let both = rules.sum(walk.bsdf_pdf, s.pdf);
            let a = rules.quotient(walk.bsdf_pdf, both);
            let b = rules.quotient(s.pdf, both);
            &&& Scalar::zero().lt(both)
            &&& rules.sum(s.pdf, walk.bsdf_pdf) == both
            &&& rules.sum(a, b) == Scalar::one()
            &&& rules.plus(rules.scaled(seen, a), rules.scaled(seen, b)) == rules.scaled(seen, rules.sum(a, b))
            &&& rules.scaled(seen, Scalar::one()) == seen
            &&& rules.plus(black(), rules.scaled(seen, a)) == rules.scaled(seen, a)
        }),
    ensures
        rules.plus(
            rules.escaped(cfg, SamplingStrategy::Mis, bounce, walk),
            rules.scaled(
                rules.times(walk.throughput, s.li),
                rules.light_weight(SamplingStrategy::Mis, cfg.lights@[i as int], at, s),
            ),
        ) == rules.times(walk.throughput, s.li),
{
}

/// What a surface emits toward a path. A camera ray, and every ray that scattering
/// alone has to find light with, meets the emission whole. With light sampling
/// alone, a scattered ray meets none. With both, it meets the part that its own
/// density has in the sum of both densities.
pub proof fn law_emission_is_met_in_part(
    rules: ArithRules,
    cfg: PathTracerConfig,
    strategy: SamplingStrategy,
    bounce: u32,
    surf: SurfaceInteraction,
    hit: BvhHit,
    wo: Point3,
    bsdf_pdf: Scalar,
)
    requires
        rules.keeps_ones(),
        rules.keeps_zeros(),
        surf.emissive.is_finite(),
        bsdf_pdf.is_finite(),
        strategy == SamplingStrategy::Mis || strategy == SamplingStrategy::Nirc ==> {
            let both = rules.sum(bsdf_pdf, rules.hit_light_pdf(cfg.lights@, surf, hit, wo));
            Scalar::zero().lt(both) && both.is_finite() && rules.undoes_parts(surf.emissive, bsdf_pdf, both)
        },
    ensures
        ({
            let met = rules.emission(cfg, strategy, bounce, surf, hit, wo, bsdf_pdf);
            let both = rules.sum(bsdf_pdf, rules.hit_light_pdf(cfg.lights@, surf, hit, wo));
            if bounce == 0 {
                met == surf.emissive
            } else {
                match strategy {
                    SamplingStrategy::BrdfOnly | SamplingStrategy::DirectOnly => met == surf.emissive,
                    SamplingStrategy::NeeOnly => met == black(),
                    SamplingStrategy::Mis | SamplingStrategy::Nirc => rules.scaled(met, both) == rules.scaled(
                        surf.emissive,
                        bsdf_pdf,
                    ),
                }
            }
        }),
{
}

/// Where scattering runs into an area light, its density there is that of the light
/// sample that picks the same point, wherever an area may be divided by before or
/// after the cosine.
pub proof fn law_hit_has_the_density_of_the_sample(
    rules: ArithRules,
    lights: Seq<Light>,
    surf: SurfaceInteraction,
    hit: BvhHit,
    x: Point3,
    rng: Stream,
    textures: Seq<Texture>,
)
    requires
        hit.light < lights.len(),
        lights[hit.light as int] is Area,
        rules.light_sample(lights[hit.light as int], x, rng, textures) matches Some(s) && {
            let mesh = *lights[hit.light as int]->Area_0;
            let wo = s.wi.negated();
            let g = rules.geom_sample(mesh@, rng.value(), rng.next().value(), rng.next().next().value());
            let d2 = rules.product(hit.hit.t, hit.hit.t);
            let cos_l = rules.dot(surf.geo_normal, wo);
            &&& hit.hit.t == s.distance
            &&& surf.geo_normal == g.normal
            &&& rules.dot(rules.minus(g.p, x), rules.minus(g.p, x)) == d2
            &&& cos_l.ordered()
            &&& rules.quotient(rules.product(rules.quotient(Scalar::one(), mesh@.total_area), d2), cos_l)
                == rules.quotient(d2, rules.product(mesh@.total_area, cos_l))
        },
    ensures
        rules.light_sample(lights[hit.light as int], x, rng, textures) matches Some(s) && rules.hit_light_pdf(
            lights,
            surf,
            hit,
            s.wi.negated(),
        ) == s.pdf,
{
}

/// A path gathers the same light at a surface whatever it has gathered before, and
/// as much of it as it lets through.
pub proof fn law_light_is_gathered_through_the_path(
    rules: TraceRules,
    cfg: PathTracerConfig,
    strategy: SamplingStrategy,
    bounce: u32,
    surf: SurfaceInteraction,
    hit: BvhHit,
    trail: Trail,
)
    ensures
        ({
            let light = rules.arith.plus(
                rules.arith.emission(cfg, strategy, bounce, surf, hit, trail.ray.dir.negated(), trail.bsdf_pdf),
                rules.reflected(cfg, strategy, bounce, surf, trail).total,
            );
            let turn = rules.opaque_turn(cfg, strategy, bounce, surf, hit, trail);
            &&& turn.trail.radiance == rules.arith.plus(trail.radiance, rules.arith.times(trail.throughput, light))
            &&& is_inferred(strategy, bounce) ==> !turn.goes_on && turn.trail.throughput == trail.throughput
        }),
{
}

/// Roulette makes up for the paths that it ends: what a survivor lets through, times
/// the probability to survive, is what the path let through before. And it spares
/// bright paths: where one survives, a brighter one does as well.
pub proof fn law_roulette_is_fair(rules: ArithRules, dim: Color, bright: Color, bounce: u32, rng: Stream)
    requires
        rules.orders_sums(),
        dim.is_finite(),
        bright.is_finite(),
        dim.at_most(bright),
        bounce > RR_START_BOUNCE,
        rng.value().is_finite(),
        ({
            let survival = rules.difference(Scalar::one(), rules.end_probability(dim));
            rules.scaled(rules.shrunk(dim, survival), survival) == dim
        }),
    ensures
        rules.roulette(dim, bounce, rng) matches Some(t) ==> rules.scaled(
            t,
            rules.difference(Scalar::one(), rules.end_probability(dim)),
        ) == dim,
        rules.roulette(dim, bounce, rng) is Some ==> rules.roulette(bright, bounce, rng) is Some,
        rules.roulette(dim, bounce, rng) is None <==> rng.value().lt(rules.end_probability(dim)),
        rules.end_probability(bright).le(rules.end_probability(dim)),
        (Scalar { key: RR_MIN_Q_KEY }).le(rules.end_probability(dim)),
{
    let d = dim.x.max(dim.y).max(dim.z);
    let b = bright.x.max(bright.y).max(bright.z);
    assert(d.le(b));
    assert(rules.difference(Scalar::one(), b).le(rules.difference(Scalar::one(), d)));
}

/// Whether a color is above black and below white in every channel.
pub open spec fn is_tinted(c: Color) -> bool {
    &&& Scalar::zero().lt(c.x) && c.x.lt(Scalar::one())
    &&& Scalar::zero().lt(c.y) && c.y.lt(Scalar::one())
    &&& Scalar::zero().lt(c.z) && c.z.lt(Scalar::one())
}

/// Whether a path that meets a dielectric leaves a volume that absorbs.
pub open spec fn leaves_volume(rules: ArithRules, surf: SurfaceInteraction, wo: Point3) -> bool {
    &&& Scalar::zero().lt(surf.thickness_factor)
    &&& rules.dot(surf.geo_normal, wo).lt(Scalar::zero())
    &&& surf.attenuation_distance.is_finite()
    &&& Scalar::zero().lt(surf.attenuation_distance)
}

/// A path that leaves a volume after its attenuation distance is tinted with its
/// attenuation color, and one that leaves it at once is not tinted, wherever the
/// first power is the number itself and its zeroth is one.
pub proof fn law_volume_tints_by_its_distance(rules: ArithRules, surf: SurfaceInteraction, hit: BvhHit, wo: Point3)
    requires
        leaves_volume(rules, surf, wo),
        rules.keeps_selves(),
        rules.keeps_zeros(),
        is_tinted(surf.attenuation_color),
        forall|c: Scalar| c.is_finite() ==> #[trigger] rules.power(c, Scalar::one()) == c,
        forall|c: Scalar| c.is_finite() ==> #[trigger] rules.power(c, Scalar::zero()) == Scalar::one(),
    ensures
        hit.hit.t == surf.attenuation_distance ==> rules.boundary(surf, hit, wo).tint == surf.attenuation_color,
        hit.hit.t == Scalar::zero() ==> rules.boundary(surf, hit, wo).tint == white(),
{
}

/// The further a path has gone through a volume, the darker it is tinted, wherever
/// dividing keeps the order and powers of a number below one fall.
pub proof fn law_volume_darkens_with_distance(
    rules: ArithRules,
    surf: SurfaceInteraction,
    near: BvhHit,
    far: BvhHit,
    wo: Point3,
)
    requires
        leaves_volume(rules, surf, wo),
        rules.orders_products(),
        is_tinted(surf.attenuation_color),
        near.hit.t.is_finite(),
        far.hit.t.is_finite(),
        near.hit.t.le(far.hit.t),
        forall|c: Scalar, a: Scalar, b: Scalar|
            #![trigger rules.power(c, a), rules.power(c, b)]
            Scalar::zero().lt(c) && c.lt(Scalar::one()) && a.le(b) ==> rules.power(c, b).le(rules.power(c, a)),
    ensures
        rules.boundary(surf, far, wo).tint.at_most(rules.boundary(surf, near, wo).tint),
{
}

/// A way through a volume tints as its two parts do one after the other, wherever
/// distances may be added after they are divided and a power of a sum is the
/// product of powers.
pub proof fn law_volume_tints_part_by_part(
    rules: ArithRules,
    surf: SurfaceInteraction,
    first: BvhHit,
    second: BvhHit,
    whole: BvhHit,
    wo: Point3,
)
    requires
        leaves_volume(rules, surf, wo),
        whole.hit.t == rules.sum(first.hit.t, second.hit.t),
        ({
            let d = surf.attenuation_distance;
            let c = surf.attenuation_color;
            let a = rules.quotient(first.hit.t, d);
            let b = rules.quotient(second.hit.t, d);
            &&& rules.quotient(whole.hit.t, d) == rules.sum(a, b)
            &&& rules.power(c.x, rules.sum(a, b)) == rules.product(rules.power(c.x, a), rules.power(c.x, b))
            &&& rules.power(c.y, rules.sum(a, b)) == rules.product(rules.power(c.y, a), rules.power(c.y, b))
            &&& rules.power(c.z, rules.sum(a, b)) == rules.product(rules.power(c.z, a), rules.power(c.z, b))
        }),
    ensures
        rules.boundary(surf, whole, wo).tint == rules.times(
            rules.boundary(surf, first, wo).tint,
            rules.boundary(surf, second, wo).tint,
        ),
{
}

/// A path that goes in, and one at a thin surface, is tinted with the color of the
/// surface, however far it came; one that leaves a volume without an attenuation
/// distance is not tinted.
pub proof fn law_surface_tints_on_the_way_in(rules: ArithRules, surf: SurfaceInteraction, hit: BvhHit, wo: Point3)
    ensures
        !rules.dot(surf.geo_normal, wo).lt(Scalar::zero()) ==> rules.boundary(surf, hit, wo).tint == surf.albedo,
        !Scalar::zero().lt(surf.thickness_factor) ==> rules.boundary(surf, hit, wo).tint == surf.albedo,
        Scalar::zero().lt(surf.thickness_factor) && rules.dot(surf.geo_normal, wo).lt(Scalar::zero())
            && !surf.attenuation_distance.is_finite() ==> rules.boundary(surf, hit, wo).tint == white(),
{
}

/// A boundary faces the side that the path comes from, wherever the shading normal
/// and the geometric normal look to one side and a scalar product turns with a
/// vector; it is left exactly if the geometric normal looks away.
pub proof fn law_boundary_faces_the_path(rules: ArithRules, surf: SurfaceInteraction, hit: BvhHit, wo: Point3)
    requires
        rules.dot(surf.normal.negated(), wo) == rules.dot(surf.normal, wo).negated(),
        rules.dot(surf.normal, wo).is_finite(),
        rules.dot(surf.normal, wo).lt(Scalar::zero()) <==> rules.dot(surf.geo_normal, wo).lt(Scalar::zero()),
    ensures
        !rules.dot(rules.boundary(surf, hit, wo).n, wo).lt(Scalar::zero()),
        rules.boundary(surf, hit, wo).is_exit <==> rules.dot(surf.geo_normal, wo).lt(Scalar::zero()),
        rules.boundary(surf, hit, wo).wo == wo,
        rules.boundary(surf, hit, wo).ior == surf.ior,
        rules.boundary(surf, hit, wo).roughness == surf.roughness,
{
}

/// A scattered path goes on from the surface in the direction that was sampled, and
/// lets through what the surface scatters there: its new throughput, times the
/// density, is what it let through before, times scattering and cosine.
pub proof fn law_scattering_weighs_by_density(rules: ArithRules, surf: SurfaceInteraction, bounce: u32, trail: Trail)
    requires
        bounce <= RR_START_BOUNCE,
        rules.brdf_sample(surf.brdf(), surf.normal, trail.ray.dir.negated(), trail.rng) matches Some(bs) && {
            let cosine = rules.dot(surf.normal, bs.wi);
            &&& Scalar::zero().lt(cosine)
            &&& rules.scaled(
                rules.times(trail.throughput, rules.scaled(bs.f, rules.quotient(cosine, bs.pdf))),
                bs.pdf,
            ) == rules.times(trail.throughput, rules.scaled(bs.f, cosine))
        },
    ensures
        ({
            let bs = rules.brdf_sample(surf.brdf(), surf.normal, trail.ray.dir.negated(), trail.rng)->0;
            let turn = rules.scatter_turn(surf, bounce, trail);
            &&& turn.goes_on
            &&& turn.trail.ray == Ray::new(surf.position, bs.wi)
            &&& turn.trail.bsdf_pdf == bs.pdf
            &&& turn.trail.radiance == trail.radiance
            &&& rules.scaled(turn.trail.throughput, bs.pdf) == rules.times(
                trail.throughput,
                rules.scaled(bs.f, rules.dot(surf.normal, bs.wi)),
            )
        }),
{
}

/// A path at a dielectric goes on from the surface, gathers nothing there, and lets
/// through what it let through before, times the weight of the sample; light
/// sampling gets no share of what it finds next.
pub proof fn law_dielectric_passes_its_weight(
    rules: ArithRules,
    surf: SurfaceInteraction,
    hit: BvhHit,
    bounce: u32,
    trail: Trail,
)
    requires
        bounce <= RR_START_BOUNCE,
        rules.glass_sample(rules.boundary(surf, hit, trail.ray.dir.negated()), trail.rng) is Some,
    ensures
        ({
            let gs = rules.glass_sample(rules.boundary(surf, hit, trail.ray.dir.negated()), trail.rng)->0;
            let turn = rules.dielectric_turn(surf, hit, bounce, trail);
            &&& turn.goes_on
            &&& turn.trail.ray.org == surf.position
            &&& turn.trail.ray.dir == rules.unit(gs.wi)
            &&& Scalar::zero().lt(turn.trail.ray.tmin)
            &&& turn.trail.ray.tmax == Scalar::infinity()
            &&& turn.trail.radiance == trail.radiance
            &&& turn.trail.throughput == rules.times(trail.throughput, gs.weight)
            &&& turn.trail.bsdf_pdf == (Scalar { key: MIRROR_PDF_KEY })
        }),
{
}

/// What the network infers is never negative, and its three values are red, green
/// and blue in order where they are not.
pub proof fn law_inferred_light_is_not_negative(rules: ArithRules, cfg: PathTracerConfig, ray: Ray)
    ensures
        black().at_most(rules.inferred(cfg, ray)),
        cfg.nirc_network matches Some(net) ==> {
            let out = rules.forward(
                net@,
                rules.features(ray.org, ray.dir, cfg.bvh.bounds_min, cfg.bvh.bounds_max),
            );
            &&& Scalar::zero().le(out[0]) ==> rules.inferred(cfg, ray).x == out[0]
            &&& Scalar::zero().le(out[1]) ==> rules.inferred(cfg, ray).y == out[1]
            &&& Scalar::zero().le(out[2]) ==> rules.inferred(cfg, ray).z == out[2]
        },
{
}

} // verus!
