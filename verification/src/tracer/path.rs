//! Paths from the camera, and the pixels that they add up to.
use std::sync::Arc;
use vstd::prelude::*;
use crate::accel::bvh::Ray;
use crate::arith::{plus, Arith, ArithRules};
use crate::bvh::BvhHit;
use crate::camera::jittered_ray;
use crate::material::{can_be_shaded, evaluate_surface};
use crate::nirc::mlp::NircMlp;
use crate::pcg32::{lemma_undo, seeded_128, Pcg32, Stream};
use crate::scalar::Scalar;
use crate::scene::{black, white, Color, Transform};
use crate::tracer::bounce::{handle_dielectric_bounce, handle_environment_hit, handle_opaque_bounce, Trail, Turn, Walk};
use crate::tracer::config::{find_hit, PathTracerConfig, Pixel, SamplingStrategy, TraceRules};

verus! {

/// No hard path-length cap: paths end by roulette only. This is just a guard.
pub const MAX_BOUNCES: u32 = u32::MAX;

/// One step of mixing the bits of a seed.
pub open spec fn folded_seed(s: u128) -> u128 {
    s ^ (s >> 33u128)
}

/// The seed of a sample of a pixel: its place and number, packed and mixed.
pub open spec fn pixel_seed(x: u32, y: u32, frame: u32) -> u128 {
    let packed = ((x as u128) << 96u128) | ((y as u128) << 64u128) | (frame as u128);
    let a = vstd::wrapping::u128_specs::wrapping_mul(folded_seed(packed), 0xff51afd7ed558ccd);
    let b = vstd::wrapping::u128_specs::wrapping_mul(folded_seed(a), 0xc4ceb9fe1a85ec53);
    folded_seed(b)
}

/// The random stream of a sample of a pixel.
fn init_pixel_rng(x: u32, y: u32, frame_index: u32) -> (r: Pcg32)
    ensures
        r@ == seeded_128(pixel_seed(x, y, frame_index)),
{
    let packed: u128 = ((x as u128) << 96) | ((y as u128) << 64) | (frame_index as u128);
    let folded: u128 = packed ^ (packed >> 33);
    let a: u128 = folded.wrapping_mul(0xff51afd7ed558ccd);
    let a: u128 = a ^ (a >> 33);
    let b: u128 = a.wrapping_mul(0xc4ceb9fe1a85ec53);
    let b: u128 = b ^ (b >> 33);
    Pcg32::from_seed_128(b)
}

/// A path from its start to its end.
#[verifier::ext_equal]
pub struct Journey {
    pub trail: Trail,
    /// Closest-hit rays traced.
    pub rays: nat,
}

/// A path that starts.
pub open spec fn start_of(ray: Ray, rng: Stream) -> Trail {
    Trail { ray, throughput: white(), radiance: black(), bsdf_pdf: Scalar::zero(), shadow_rays: 0, rng }
}

impl TraceRules {
    /// A path at a surface: through it with the probability of its transmission,
    /// else scattered at it. With direct light only, nothing after the first.
    pub open spec fn surface_turn(
        self,
        cfg: PathTracerConfig,
        strategy: SamplingStrategy,
        bounce: u32,
        hit: BvhHit,
        trail: Trail,
    ) -> Turn {
        let surf = self.arith.surface(hit, trail.ray, *cfg.bvh, *cfg.scene);
        if strategy == SamplingStrategy::DirectOnly && bounce == 1 {
            Turn { trail, goes_on: false }
        } else if Scalar::zero().lt(surf.transmission) {
            let drawn = Trail { rng: trail.rng.next(), ..trail };
            if trail.rng.value().lt(surf.transmission) {
                self.arith.dielectric_turn(surf, hit, bounce, drawn)
            } else {
                self.opaque_turn(cfg, strategy, bounce, surf, hit, drawn)
            }
        } else {
            self.opaque_turn(cfg, strategy, bounce, surf, hit, trail)
        }
    }

    /// A path at its next vertex, or off into the environment.
    pub open spec fn turn(
        self,
        cfg: PathTracerConfig,
        strategy: SamplingStrategy,
        bounce: u32,
        trail: Trail,
    ) -> Turn {
        match self.hit(*cfg.bvh, trail.ray) {
            None => Turn {
                trail: Trail { radiance: self.escaped_trail(cfg, strategy, bounce, trail), ..trail },
                goes_on: false,
            },
            Some(hit) => self.surface_turn(cfg, strategy, bounce, hit, trail),
        }
    }

    /// What a path that escapes has gathered.
    pub open spec fn escaped_trail(
        self,
        cfg: PathTracerConfig,
        strategy: SamplingStrategy,
        bounce: u32,
        trail: Trail,
    ) -> Color {
        self.arith.escaped(
            cfg,
            strategy,
            bounce,
            (Walk {
                ray: trail.ray,
                throughput: trail.throughput,
                radiance: trail.radiance,
                bsdf_pdf: trail.bsdf_pdf,
                shadow_rays: 0,
            }),
        )
    }

    /// A path from a bounce on, for at most `left` more vertices.
    pub open spec fn journey(
        self,
        cfg: PathTracerConfig,
        strategy: SamplingStrategy,
        bounce: u32,
        left: nat,
        path: Journey,
    ) -> Journey
        decreases left,
    {
        if left == 0 {
            path
        } else {
            let turn = self.turn(cfg, strategy, bounce, path.trail);
            let next = Journey { trail: turn.trail, rays: path.rays + 1 };
            if turn.goes_on {
                self.journey(cfg, strategy, (bounce + 1) as u32, (left - 1) as nat, next)
            } else {
                next
            }
        }
    }

    /// The path of a ray, of at most `max_depth` vertices.
    pub open spec fn traced(
        self,
        cfg: PathTracerConfig,
        strategy: SamplingStrategy,
        max_depth: u32,
        ray: Ray,
        rng: Stream,
    ) -> Journey {
        self.journey(cfg, strategy, 0, max_depth as nat, Journey { trail: start_of(ray, rng), rays: 0 })
    }

    /// The path of the sample of a pixel.
    pub open spec fn pixel_path(self, cfg: PathTracerConfig, x: usize, y: usize, sample: u32) -> Journey {
        let rng = seeded_128(pixel_seed(x as u32, y as u32, sample));
        let ray = self.arith.jittered_ray(
            cfg.camera,
            cfg.width,
            cfg.height,
            self.arith.of_count(x),
            self.arith.of_count(y),
            rng,
        );
        self.traced(cfg, cfg.strategy, MAX_BOUNCES, ray, rng.next().next())
    }
}

/// A path tracer, set up.
pub struct PathTracer {
    config: PathTracerConfig,
    cam2world: Transform,
}

/// Number of rays of each kind.
#[derive(Clone, Copy, PartialEq, Eq, Structural, Debug)]
pub struct RayCounts {
    /// Closest-hit rays (primary and bounces).
    pub rays: u64,
    /// Any-hit shadow rays.
    pub shadow_rays: u64,
}

/// A path at a surface.
fn turn_at<M: Arith>(
    math: &M,
    cfg: &PathTracerConfig,
    strategy: SamplingStrategy,
    bounce: u32,
    hit: &BvhHit,
    walk: Walk,
    rng: &mut Pcg32,
) -> (r: (Walk, bool))
    requires
        cfg.valid(),
        can_be_shaded(*cfg.bvh, *cfg.scene, *hit),
        walk.shadow_rays + cfg.lights@.len() <= u64::MAX,
    ensures
        r.0.shadow_rays <= walk.shadow_rays + cfg.lights@.len(),
        forall|rules: TraceRules| #[trigger]
            rules.describe(*math) ==> rules.surface_turn(
                *cfg,
                strategy,
                bounce,
                *hit,
                walk.with_rng(old(rng)@),
            ) == (Turn { trail: r.0.with_rng(final(rng)@), goes_on: r.1 }),
{
    let surf = evaluate_surface(math, hit, &walk.ray, &cfg.bvh, &cfg.scene);
    proof {
        assert forall|rules: TraceRules| #[trigger] rules.describe(*math) implies rules.arith.describe(
            *math,
        ) by {}
        assert forall|rules: TraceRules| #[trigger] rules.describe(*math) implies surf == rules.arith.surface(
            *hit,
            walk.with_rng(old(rng)@).ray,
            *cfg.bvh,
            *cfg.scene,
        ) by {
            assert(rules.arith.describe(*math));
        }
    }
    if strategy == SamplingStrategy::DirectOnly && bounce == 1 {
        return (walk, false);
    }
    if Scalar::zero().lt(surf.transmission) {
        let u = rng.next_f32();
        assert(walk.with_rng(rng@) == (Trail { rng: old(rng)@.next(), ..walk.with_rng(old(rng)@) }));
        if u.lt(surf.transmission) {
            let ghost drawn = rng@;
            let r = handle_dielectric_bounce(math, &surf, hit, bounce, walk, rng);
            proof {
                assert forall|rules: TraceRules| #[trigger] rules.describe(*math) implies rules.surface_turn(
                    *cfg,
                    strategy,
                    bounce,
                    *hit,
                    walk.with_rng(old(rng)@),
                ) == (Turn { trail: r.0.with_rng(rng@), goes_on: r.1 }) by {
                    assert(rules.arith.describe(*math));
                    assert(rules.arith.dielectric_turn(surf, *hit, bounce, walk.with_rng(drawn)) == (Turn {
                        trail: r.0.with_rng(rng@),
                        goes_on: r.1,
                    }));
                }
            }
            return r;
        }
    }
    handle_opaque_bounce(math, cfg, strategy, bounce, &surf, hit, walk, rng)
}

impl PathTracer {
    /// What the tracer is set up with.
    pub closed spec fn cfg(self) -> PathTracerConfig {
        self.config
    }

    /// Whether the tracer's view of the camera is that of a set of rules.
    pub closed spec fn sees_by(self, rules: ArithRules) -> bool {
        self.cam2world == rules.camera_to_world(self.config.camera)
    }

    /// Sets up a path tracer.
    pub fn new<M: Arith>(math: &M, config: PathTracerConfig) -> (r: PathTracer)
        ensures
            r.cfg() == config,
            forall|rules: ArithRules| #[trigger] rules.describe(*math) ==> r.sees_by(rules),
    {
        let cam2world = config.camera.compute_camera_to_world(math);
        PathTracer { config, cam2world }
    }

    /// Hot-swap the inference network.
    pub fn set_nirc_network(&mut self, network: Option<Arc<NircMlp>>)
        ensures
            final(self).cfg() == (PathTracerConfig { nirc_network: network, ..old(self).cfg() }),
            forall|rules: ArithRules| #[trigger] final(self).sees_by(rules) <==> old(self).sees_by(rules),
    {
        self.config.nirc_network = network;
    }

    /// The ray through a random point of the pixel at (x, y).
    pub fn generate_ray<M: Arith>(&self, math: &M, rng: &mut Pcg32, x: Scalar, y: Scalar) -> (r: Ray)
        ensures
            final(rng)@ == old(rng)@.next().next(),
            forall|rules: ArithRules| #[trigger]
                rules.describe(*math) && self.sees_by(rules) ==> r == rules.jittered_ray(
                    self.cfg().camera,
                    self.cfg().width,
                    self.cfg().height,
                    x,
                    y,
                    old(rng)@,
                ),
    {
        jittered_ray(
            math,
            self.cam2world,
            self.config.camera.fov,
            self.config.width,
            self.config.height,
            x,
            y,
            rng,
        )
    }

    /// Trace one path and return what it gathers. Each bounce: intersect, evaluate
    /// the surface, add emission and direct lighting, sample the next direction,
    /// roulette.
    fn trace_path<M: Arith>(
        &self,
        math: &M,
        ray: Ray,
        strategy: SamplingStrategy,
        max_depth: u32,
        rng: &mut Pcg32,
    ) -> (r: (Walk, u64))
        requires
            self.cfg().valid(),
        ensures
            r.1 <= max_depth,
            forall|rules: TraceRules| #[trigger]
                rules.describe(*math) ==> rules.traced(
                    self.cfg(),
                    strategy,
                    max_depth,
                    ray,
                    old(rng)@,
                ) == (Journey { trail: r.0.with_rng(final(rng)@), rays: r.1 as nat }),
    {
        let mut walk = Walk {
            ray,
            throughput: white(),
            radiance: black(),
            bsdf_pdf: Scalar::zero(),
            shadow_rays: 0,
        };
        let mut bounce: u32 = 0;
        let ghost n = self.config.lights@.len();
        assert(walk.with_rng(rng@) == start_of(ray, old(rng)@));
        assert(0 * n == 0);
        while bounce < max_depth
            invariant
                self.cfg().valid(),
                self.cfg() == self.config,
                bounce <= max_depth,
                n == self.config.lights@.len(),
                n <= u32::MAX,
                walk.shadow_rays <= bounce * n,
                forall|rules: TraceRules| #[trigger]
                    rules.describe(*math) ==> rules.traced(
                        self.cfg(),
                        strategy,
                        max_depth,
                        ray,
                        old(rng)@,
                    ) == rules.journey(
                        self.cfg(),
                        strategy,
                        bounce,
                        (max_depth - bounce) as nat,
                        (Journey { trail: walk.with_rng(rng@), rays: bounce as nat }),
                    ),
            decreases max_depth - bounce,
        {
            let ghost before = walk.with_rng(rng@);
            proof {
                assert(bounce * n + n == (bounce + 1) * n) by (nonlinear_arith);
                assert((bounce + 1) * n <= 0xffff_ffff * 0xffff_ffff) by (nonlinear_arith)
                    requires
                        bounce + 1 <= 0xffff_ffff,
                        n <= 0xffff_ffff,
                ;
            }
            match find_hit(math, &self.config, &walk.ray) {
                None => {
                    let radiance = handle_environment_hit(math, &self.config, strategy, bounce, walk);
                    let ghost then = walk;
                    walk.radiance = radiance;
                    proof {
                        assert forall|rules: TraceRules| #[trigger]
                            rules.describe(*math) implies rules.traced(
                            self.cfg(),
                            strategy,
                            max_depth,
                            ray,
                            old(rng)@,
                        ) == (Journey { trail: walk.with_rng(rng@), rays: (bounce + 1) as nat }) by {
                            assert(rules.arith.describe(*math));
                            assert(rules.hit(*self.config.bvh, before.ray) is None);
                            lemma_escaped_ignores_count(
                                rules.arith,
                                self.config,
                                strategy,
                                bounce,
                                then,
                            );
                            assert(rules.turn(self.cfg(), strategy, bounce, before) == (Turn {
                                trail: walk.with_rng(rng@),
                                goes_on: false,
                            }));
                        }
                    }
                    return (walk, bounce as u64 + 1);
                },
                Some(hit) => {
                    let (next, goes_on) = turn_at(math, &self.config, strategy, bounce, &hit, walk, rng);
                    walk = next;
                    proof {
                        assert forall|rules: TraceRules| #[trigger]
                            rules.describe(*math) implies rules.turn(
                            self.cfg(),
                            strategy,
                            bounce,
                            before,
                        ) == (Turn { trail: walk.with_rng(rng@), goes_on }) by {
                            assert(rules.hit(*self.config.bvh, before.ray) == Some(hit));
                        }
                    }
                    if !goes_on {
                        return (walk, bounce as u64 + 1);
                    }
                },
            }
            bounce = bounce + 1;
        }
        (walk, bounce as u64)
    }

    /// Trace one sample for pixel (x, y), accumulating into `pixel`. Returns the
    /// number of rays traced.
    pub fn sample_pixel<M: Arith>(
        &self,
        math: &M,
        x: usize,
        y: usize,
        pixel: &mut Pixel,
    ) -> (r: RayCounts)
        requires
            self.cfg().valid(),
            old(pixel).samples < u32::MAX,
        ensures
            final(pixel).samples == old(pixel).samples + 1,
            r.rays <= MAX_BOUNCES,
            forall|rules: TraceRules| #[trigger]
                rules.describe(*math) && self.sees_by(rules.arith) ==> {
                    let path = rules.pixel_path(self.cfg(), x, y, old(pixel).samples);
                    &&& final(pixel).accumulated_radiance == rules.arith.plus(
                        old(pixel).accumulated_radiance,
                        path.trail.radiance,
                    )
                    &&& r.rays == path.rays
                    &&& r.shadow_rays == path.trail.shadow_rays
                },
    {
        let mut rng = init_pixel_rng(x as u32, y as u32, pixel.samples);
        let ray = self.generate_ray(math, &mut rng, math.of_count(x), math.of_count(y));
        let (walk, rays) = self.trace_path(math, ray, self.config.strategy, MAX_BOUNCES, &mut rng);
        pixel.accumulated_radiance = plus(math, pixel.accumulated_radiance, walk.radiance);
        pixel.samples = pixel.samples + 1;
        proof {
            assert forall|rules: TraceRules| #[trigger]
                rules.describe(*math) && self.sees_by(rules.arith) implies ({
                let path = rules.pixel_path(self.cfg(), x, y, old(pixel).samples);
                &&& pixel.accumulated_radiance == rules.arith.plus(
                    old(pixel).accumulated_radiance,
                    path.trail.radiance,
                )
                &&& rays == path.rays
                &&& walk.shadow_rays == path.trail.shadow_rays
            }) by {
                assert(rules.arith.describe(*math));
            }
        }
        RayCounts { rays, shadow_rays: walk.shadow_rays }
    }

    /// What the tracer is set up with.
    pub fn config(&self) -> (r: &PathTracerConfig)
        ensures
            *r == self.cfg(),
    {
        &self.config
    }

    /// The direct-lighting estimator in use.
    pub fn strategy(&self) -> (r: SamplingStrategy)
        ensures
            r == self.cfg().strategy,
    {
        self.config.strategy
    }
}

/// What a path gathers where it escapes does not depend on how many shadow rays
/// were traced.
proof fn lemma_escaped_ignores_count(
    rules: ArithRules,
    cfg: PathTracerConfig,
    strategy: SamplingStrategy,
    bounce: u32,
    walk: Walk,
)
    ensures
        rules.escaped(cfg, strategy, bounce, walk) == rules.escaped(
            cfg,
            strategy,
            bounce,
            (Walk { shadow_rays: 0, ..walk }),
        ),
{
}

/// Folding loses nothing.
proof fn lemma_folding_is_injective(a: u128, b: u128)
    requires
        folded_seed(a) == folded_seed(b),
    ensures
        a == b,
{
    assert(a == b) by (bit_vector)
        requires
            a ^ (a >> 33u128) == b ^ (b >> 33u128),
    ;
}

/// Multiplying by an odd number loses nothing.
proof fn lemma_scaling_is_injective(a: u128, b: u128, f: int, inverse: int, k: int)
    requires
        f * inverse == k * 0x1_0000_0000_0000_0000_0000_0000_0000_0000int + 1,
        (a * f) % 0x1_0000_0000_0000_0000_0000_0000_0000_0000int == (b * f)
            % 0x1_0000_0000_0000_0000_0000_0000_0000_0000int,
    ensures
        a == b,
{
    let m: int = 0x1_0000_0000_0000_0000_0000_0000_0000_0000int;
    vstd::arithmetic::div_mod::lemma_mod_multiples_vanish(k, 1, m);
    assert(m * k + 1 == f * inverse) by (nonlinear_arith)
        requires
            f * inverse == k * m + 1,
    ;
    vstd::arithmetic::div_mod::lemma_small_mod(1, m as nat);
    lemma_undo(a as int, f, inverse, m);
    lemma_undo(b as int, f, inverse, m);
}

/// No two samples share a seed: different pixels, and different samples of one
/// pixel, start from different random numbers.
pub proof fn law_samples_have_their_own_seeds(x: u32, y: u32, frame: u32, x2: u32, y2: u32, frame2: u32)
    requires
        pixel_seed(x, y, frame) == pixel_seed(x2, y2, frame2),
    ensures
        x == x2,
        y == y2,
        frame == frame2,
{
    let p = ((x as u128) << 96u128) | ((y as u128) << 64u128) | (frame as u128);
    let q = ((x2 as u128) << 96u128) | ((y2 as u128) << 64u128) | (frame2 as u128);
    let a = vstd::wrapping::u128_specs::wrapping_mul(folded_seed(p), 0xff51afd7ed558ccd);
    let c = vstd::wrapping::u128_specs::wrapping_mul(folded_seed(q), 0xff51afd7ed558ccd);
    let b = vstd::wrapping::u128_specs::wrapping_mul(folded_seed(a), 0xc4ceb9fe1a85ec53);
    let d = vstd::wrapping::u128_specs::wrapping_mul(folded_seed(c), 0xc4ceb9fe1a85ec53);
    lemma_folding_is_injective(b, d);
    lemma_scaling_is_injective(
        folded_seed(a),
        folded_seed(c),
        0xc4ceb9fe1a85ec53,
        213254845538978623766761885273188153307int,
        8887526753438552662int,
    );
    lemma_folding_is_injective(a, c);
    lemma_scaling_is_injective(
        folded_seed(p),
        folded_seed(q),
        0xff51afd7ed558ccd,
        287172359279303870543919223329008205829int,
        15526237859854251831int,
    );
    lemma_folding_is_injective(p, q);
    assert(x == x2 && y == y2 && frame == frame2) by (bit_vector)
        requires
            ((x as u128) << 96u128) | ((y as u128) << 64u128) | (frame as u128) == ((x2 as u128) << 96u128) | ((
            y2 as u128) << 64u128) | (frame2 as u128),
    ;
}

/// A path that may meet no surface gathers nothing, and one that starts lets
/// everything through.
pub proof fn law_paths_start_clear(
    rules: TraceRules,
    cfg: PathTracerConfig,
    strategy: SamplingStrategy,
    ray: Ray,
    rng: Stream,
)
    ensures
        rules.traced(cfg, strategy, 0, ray, rng).trail.radiance == black(),
        rules.traced(cfg, strategy, 0, ray, rng).rays == 0,
        start_of(ray, rng).throughput == white(),
        start_of(ray, rng).radiance == black(),
        start_of(ray, rng).ray == ray,
        rules.traced(cfg, strategy, 1, ray, rng) == (Journey {
            trail: rules.turn(cfg, strategy, 0, start_of(ray, rng)).trail,
            rays: 1,
        }),
{
    reveal_with_fuel(TraceRules::journey, 2);
}

/// A path goes on as long as its turns say so, one bounce further at each, and
/// traces one ray for each.
pub proof fn law_path_goes_turn_by_turn(
    rules: TraceRules,
    cfg: PathTracerConfig,
    strategy: SamplingStrategy,
    bounce: u32,
    left: nat,
    path: Journey,
)
    requires
        left > 0,
        bounce < u32::MAX,
    ensures
        ({
            let turn = rules.turn(cfg, strategy, bounce, path.trail);
            let whole = rules.journey(cfg, strategy, bounce, left, path);
            &&& !turn.goes_on ==> whole.trail == turn.trail && whole.rays == path.rays + 1
            &&& turn.goes_on ==> whole == rules.journey(
                cfg,
                strategy,
                (bounce + 1) as u32,
                (left - 1) as nat,
                Journey { trail: turn.trail, rays: path.rays + 1 },
            )
            &&& whole.rays > path.rays
        }),
    decreases left,
{
    let turn = rules.turn(cfg, strategy, bounce, path.trail);
    let next = Journey { trail: turn.trail, rays: path.rays + 1 };
    if turn.goes_on && left > 1 {
        lemma_rays_never_fall(rules, cfg, strategy, (bounce + 1) as u32, (left - 1) as nat, next);
    }
}

proof fn lemma_rays_never_fall(
    rules: TraceRules,
    cfg: PathTracerConfig,
    strategy: SamplingStrategy,
    bounce: u32,
    left: nat,
    path: Journey,
)
    ensures
        rules.journey(cfg, strategy, bounce, left, path).rays >= path.rays,
    decreases left,
{
    if left > 0 {
        let turn = rules.turn(cfg, strategy, bounce, path.trail);
        if turn.goes_on {
            lemma_rays_never_fall(
                rules,
                cfg,
                strategy,
                (bounce + 1) as u32,
                (left - 1) as nat,
                Journey { trail: turn.trail, rays: path.rays + 1 },
            );
        }
    }
}

/// A path that meets nothing ends in the environment; without one it has gathered
/// what it had.
pub proof fn law_missing_everything_ends_a_path(
    rules: TraceRules,
    cfg: PathTracerConfig,
    strategy: SamplingStrategy,
    bounce: u32,
    trail: Trail,
)
    requires
        rules.hit(*cfg.bvh, trail.ray) is None,
    ensures
        ({
            let turn = rules.turn(cfg, strategy, bounce, trail);
            &&& !turn.goes_on
            &&& turn.trail.throughput == trail.throughput
            &&& turn.trail.rng == trail.rng
            &&& turn.trail.shadow_rays == trail.shadow_rays
            &&& cfg.env is None ==> turn.trail.radiance == trail.radiance
            &&& turn.trail.radiance == rules.arith.escaped(
                cfg,
                strategy,
                bounce,
                (Walk {
                    ray: trail.ray,
                    throughput: trail.throughput,
                    radiance: trail.radiance,
                    bsdf_pdf: trail.bsdf_pdf,
                    shadow_rays: 0,
                }),
            )
        }),
{
}

/// A surface is gone through with the probability of its transmission: opaque ones
/// never are, those that a number drawn falls below are, and the rest scatter. With
/// direct light only, the second surface ends the path and adds nothing.
pub proof fn law_transmission_decides(
    rules: TraceRules,
    cfg: PathTracerConfig,
    strategy: SamplingStrategy,
    bounce: u32,
    hit: BvhHit,
    trail: Trail,
)
    ensures
        ({
            let surf = rules.arith.surface(hit, trail.ray, *cfg.bvh, *cfg.scene);
            let turn = rules.surface_turn(cfg, strategy, bounce, hit, trail);
            let drawn = Trail { rng: trail.rng.next(), ..trail };
            if strategy == SamplingStrategy::DirectOnly && bounce == 1 {
                turn == Turn { trail, goes_on: false }
            } else {
                &&& surf.transmission.le(Scalar::zero()) ==> turn == rules.opaque_turn(
                    cfg,
                    strategy,
                    bounce,
                    surf,
                    hit,
                    trail,
                )
                &&& Scalar::zero().lt(surf.transmission) && trail.rng.value().lt(surf.transmission) ==> turn
                    == rules.arith.dielectric_turn(surf, hit, bounce, drawn)
                &&& Scalar::zero().lt(surf.transmission) && surf.transmission.le(trail.rng.value()) ==> turn
                    == rules.opaque_turn(cfg, strategy, bounce, surf, hit, drawn)
            }
        }),
{
}

/// The path of a sample starts with the ray through a random point of its pixel, drawn
/// from the numbers of that sample, and goes on with the numbers after those.
pub proof fn law_pixel_path_starts_at_its_pixel(rules: TraceRules, cfg: PathTracerConfig, x: usize, y: usize, sample: u32)
    ensures
        ({
            let rng = seeded_128(pixel_seed(x as u32, y as u32, sample));
            let ray = rules.arith.camera_ray(
                rules.arith.camera_to_world(cfg.camera),
                cfg.camera.fov,
                cfg.width,
                cfg.height,
                rules.arith.of_count(x),
                rules.arith.of_count(y),
                rng.value(),
                rng.next().value(),
            );
            rules.pixel_path(cfg, x, y, sample) == rules.traced(
                cfg,
                cfg.strategy,
                u32::MAX,
                ray,
                rng.next().next(),
            )
        }),
{
}

} // verus!
