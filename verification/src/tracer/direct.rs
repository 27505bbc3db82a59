//! Direct lighting: one shadow ray per light.
use vstd::prelude::*;
use crate::accel::bvh::Ray;
use crate::arith::{dot, plus, scaled, times, Arith, ArithRules};
use crate::brdf::Brdf;
use crate::light::{Light, LightSample};
use crate::pcg32::{Pcg32, Stream};
use crate::scalar::{Point3, Scalar};
use crate::scene::{black, Color};
use crate::tracer::config::{find_blocked, PathTracerConfig, SamplingStrategy, TraceRules};

verus! {

/// Key of the distance by which a shadow ray ends before the light, and by which
/// a ray through glass starts behind the surface.
pub const RAY_EPSILON_KEY: i32 = 0x3a83_126f;

/// A point to be lit: where it is, how its surface scatters, and the direction
/// toward the previous vertex.
#[derive(Clone, Copy, PartialEq, Eq, Structural, Debug)]
pub struct ShadingPoint {
    pub position: Point3,
    pub normal: Point3,
    pub brdf: Brdf,
    pub wo: Point3,
}

/// How far the lights have been gone through.
#[verifier::ext_equal]
pub struct Lit {
    pub total: Color,
    pub shadow_rays: nat,
    pub rng: Stream,
}

/// Whether a light is sampled under a strategy: scattered rays find all but
/// delta lights by themselves.
pub open spec fn is_sampled(strategy: SamplingStrategy, light: Light) -> bool {
    strategy != SamplingStrategy::BrdfOnly || light.is_delta()
}

impl ArithRules {
    /// The cosine at a point toward a sample, not below zero.
    pub open spec fn sample_cosine(self, at: ShadingPoint, s: LightSample) -> Scalar {
        self.dot(at.normal, s.wi).max(Scalar::zero())
    }

    /// The ray from a point toward a sample. It starts on the surface, and ends
    /// just before the light.
    pub open spec fn shadow_ray(self, at: ShadingPoint, s: LightSample) -> Ray {
        Ray {
            org: at.position,
            dir: s.wi,
            tmin: Scalar::zero(),
            tmax: if s.distance.is_finite() {
                self.difference(s.distance, Scalar { key: RAY_EPSILON_KEY })
            } else {
                Scalar::infinity()
            },
        }
    }

    /// The balance heuristic: the share of one density in two.
    pub open spec fn balance(self, chosen: Scalar, other: Scalar) -> Scalar {
        self.quotient(chosen, self.sum(chosen, other))
    }

    /// The weight of a light sample: shared with scattering where scattering could
    /// have found the light as well.
    pub open spec fn light_weight(
        self,
        strategy: SamplingStrategy,
        light: Light,
        at: ShadingPoint,
        s: LightSample,
    ) -> Scalar {
        if strategy == SamplingStrategy::Mis && !light.is_delta() {
            self.balance(s.pdf, self.brdf_pdf(at.brdf, at.normal, at.wo, s.wi))
        } else {
            Scalar::one()
        }
    }

    /// What an unblocked sample contributes.
    pub open spec fn contribution(
        self,
        strategy: SamplingStrategy,
        light: Light,
        at: ShadingPoint,
        s: LightSample,
    ) -> Color {
        self.scaled(
            self.times(self.brdf_eval(at.brdf, at.normal, at.wo, s.wi), s.li),
            self.product(
                self.quotient(self.sample_cosine(at, s), s.pdf),
                self.light_weight(strategy, light, at, s),
            ),
        )
    }
}

impl TraceRules {
    /// One light more.
    pub open spec fn lit_by(
        self,
        cfg: PathTracerConfig,
        strategy: SamplingStrategy,
        at: ShadingPoint,
        light: Light,
        lit: Lit,
    ) -> Lit {
        if !is_sampled(strategy, light) {
            lit
        } else {
            let rng = light.rng_after(lit.rng);
            match self.arith.light_sample(light, at.position, lit.rng, cfg.scene.textures@) {
                None => Lit { rng, ..lit },
                Some(s) => if self.arith.sample_cosine(at, s).le(Scalar::zero()) {
                    Lit { rng, ..lit }
                } else if self.is_blocked(*cfg.bvh, self.arith.shadow_ray(at, s)) {
                    Lit { rng, total: lit.total, shadow_rays: lit.shadow_rays + 1 }
                } else {
                    Lit {
                        rng,
                        total: self.arith.plus(lit.total, self.arith.contribution(strategy, light, at, s)),
                        shadow_rays: lit.shadow_rays + 1,
                    }
                },
            }
        }
    }

    /// The first `k` lights together.
    pub open spec fn lit(
        self,
        cfg: PathTracerConfig,
        strategy: SamplingStrategy,
        at: ShadingPoint,
        rng: Stream,
        k: nat,
    ) -> Lit
        decreases k,
    {
        if k == 0 {
            Lit { total: black(), shadow_rays: 0, rng }
        } else {
            self.lit_by(cfg, strategy, at, cfg.lights@[k - 1], self.lit(cfg, strategy, at, rng, (k - 1) as nat))
        }
    }

    /// All lights together.
    pub open spec fn direct(
        self,
        cfg: PathTracerConfig,
        strategy: SamplingStrategy,
        at: ShadingPoint,
        rng: Stream,
    ) -> Lit {
        self.lit(cfg, strategy, at, rng, cfg.lights@.len())
    }
}

/// What an unblocked sample contributes.
fn contribute<M: Arith>(math: &M, strategy: SamplingStrategy, light: &Light, at: ShadingPoint, s: LightSample) -> (r:
    Color)
    ensures
        forall|rules: ArithRules| #[trigger]
            rules.describe(*math) ==> r == rules.contribution(strategy, *light, at, s),
{
    let f = at.brdf.eval(math, at.normal, at.wo, s.wi);
    let w = if strategy == SamplingStrategy::Mis && !light.is_delta() {
        let p_b = at.brdf.pdf(math, at.normal, at.wo, s.wi);
        math.quotient(s.pdf, math.sum(s.pdf, p_b))
    } else {
        Scalar::one()
    };
    let cos_s = dot(math, at.normal, s.wi).max(Scalar::zero());
    scaled(math, times(math, f, s.li), math.product(math.quotient(cos_s, s.pdf), w))
}

/// One light more. Returns whether a shadow ray was traced.
fn add_light<M: Arith>(
    math: &M,
    cfg: &PathTracerConfig,
    strategy: SamplingStrategy,
    at: ShadingPoint,
    i: usize,
    total: &mut Color,
    rng: &mut Pcg32,
) -> (traced: bool)
    requires
        cfg.valid(),
        i < cfg.lights@.len(),
    ensures
        final(rng)@ == (if is_sampled(strategy, cfg.lights@[i as int]) {
            cfg.lights@[i as int].rng_after(old(rng)@)
        } else {
            old(rng)@
        }),
        forall|rules: TraceRules, n: nat|
            #![trigger rules.describe(*math), rules.lit_by(*cfg, strategy, at, cfg.lights@[i as int], (Lit { total: *old(total), shadow_rays: n, rng: old(rng)@ }))]
            rules.describe(*math) ==> rules.lit_by(
                *cfg,
                strategy,
                at,
                cfg.lights@[i as int],
                (Lit { total: *old(total), shadow_rays: n, rng: old(rng)@ }),
            ) == (Lit {
                total: *final(total),
                shadow_rays: (if traced {
                    n + 1
                } else {
                    n
                }),
                rng: final(rng)@,
            }),
{
    let light = &cfg.lights[i];
    assert(cfg.lights@[i as int].can_be_sampled());
    if strategy == SamplingStrategy::BrdfOnly && !light.is_delta() {
        return false;
    }
    match light.sample_li(math, at.position, rng, &cfg.scene.textures) {
        None => false,
        Some(s) => {
            let cos_s = dot(math, at.normal, s.wi).max(Scalar::zero());
            if cos_s.le(Scalar::zero()) {
                return false;
            }
            let tmax = if s.distance.is_finite() {
                math.difference(s.distance, Scalar { key: RAY_EPSILON_KEY })
            } else {
                Scalar::infinity()
            };
            let ray = Ray::new_with_minmax(at.position, s.wi, Scalar::zero(), tmax);
            if !find_blocked(math, cfg, &ray) {
                *total = plus(math, *total, contribute(math, strategy, light, at, s));
            }
            true
        },
    }
}

/// Direct lighting: one shadow ray per light, summed. Every light goes through
/// the same interface and the same solid-angle estimator. Returns the sum and
/// the number of shadow rays.
pub fn compute_direct_lighting<M: Arith>(
    math: &M,
    cfg: &PathTracerConfig,
    strategy: SamplingStrategy,
    at: ShadingPoint,
    rng: &mut Pcg32,
) -> (r: (Color, u64))
    requires
        cfg.valid(),
    ensures
        r.1 <= cfg.lights@.len(),
        forall|rules: TraceRules| #[trigger]
            rules.describe(*math) ==> rules.direct(*cfg, strategy, at, old(rng)@) == (Lit {
                total: r.0,
                shadow_rays: r.1 as nat,
                rng: final(rng)@,
            }),
{
    let mut total = black();
    let mut shadow_rays: u64 = 0;
    let mut i: usize = 0;
    while i < cfg.lights.len()
        invariant
            cfg.valid(),
            i <= cfg.lights.len(),
            shadow_rays <= i,
            forall|rules: TraceRules| #[trigger]
                rules.describe(*math) ==> rules.lit(*cfg, strategy, at, old(rng)@, i as nat) == (Lit {
                    total,
                    shadow_rays: shadow_rays as nat,
                    rng: rng@,
                }),
        decreases cfg.lights.len() - i,
    {
        let ghost before = (Lit { total, shadow_rays: shadow_rays as nat, rng: rng@ });
        if add_light(math, cfg, strategy, at, i, &mut total, rng) {
            shadow_rays = shadow_rays + 1;
        }
        i = i + 1;
        proof {
            assert forall|rules: TraceRules| #[trigger] rules.describe(*math) implies rules.lit(
                *cfg,
                strategy,
                at,
                old(rng)@,
                i as nat,
            ) == (Lit { total, shadow_rays: shadow_rays as nat, rng: rng@ }) by {
                assert(rules.lit(*cfg, strategy, at, old(rng)@, (i - 1) as nat) == before);
                assert(rules.lit_by(*cfg, strategy, at, cfg.lights@[i - 1], before) == (Lit {
                    total,
                    shadow_rays: shadow_rays as nat,
                    rng: rng@,
                }));
            }
        }
    }
    (total, shadow_rays)
}

/// The two weights of a pair of densities are shares of one whole, wherever the
/// order of a sum does not matter; and a technique that stands alone has all of
/// it, wherever zero adds nothing and a number goes into itself once.
pub proof fn law_balance_shares_one_whole(rules: ArithRules, a: Scalar, b: Scalar)
    requires
        rules.sum(a, b) == rules.sum(b, a),
    ensures
        rules.balance(a, b) == rules.quotient(a, rules.sum(a, b)),
        rules.balance(b, a) == rules.quotient(b, rules.sum(a, b)),
        b == Scalar::zero() && rules.sum(a, b) == a && rules.quotient(a, a) == Scalar::one() ==> rules.balance(a, b)
            == Scalar::one(),
{
}

/// A weight is between nothing and one, wherever division by a number above zero
/// keeps the order and a number goes into itself once and into nothing not at all.
pub proof fn law_weight_is_a_share(rules: ArithRules, a: Scalar, b: Scalar)
    requires
        Scalar::zero().le(a),
        a.le(rules.sum(a, b)),
        forall|x: Scalar, y: Scalar|
            #![trigger rules.quotient(x, rules.sum(a, b)), rules.quotient(y, rules.sum(a, b))]
            x.le(y) ==> rules.quotient(x, rules.sum(a, b)).le(rules.quotient(y, rules.sum(a, b))),
        rules.quotient(Scalar::zero(), rules.sum(a, b)) == Scalar::zero(),
        rules.quotient(rules.sum(a, b), rules.sum(a, b)) == Scalar::one(),
    ensures
        Scalar::zero().le(rules.balance(a, b)),
        rules.balance(a, b).le(Scalar::one()),
{
}

/// A light sample estimates its light: what it contributes, times the density at
/// which the direction is found, is what the surface scatters of the light, times
/// the cosine. The density is the light's own, and with both techniques, where
/// scattering could have found the light as well, the sum of both.
pub proof fn law_light_sample_estimates_its_light(
    rules: ArithRules,
    strategy: SamplingStrategy,
    light: Light,
    at: ShadingPoint,
    s: LightSample,
)
    requires
        Scalar::zero().lt(rules.dot(at.normal, s.wi)),
        ({
            let scattered = rules.times(rules.brdf_eval(at.brdf, at.normal, at.wo, s.wi), s.li);
            let cosine = rules.dot(at.normal, s.wi);
            let both = rules.sum(s.pdf, rules.brdf_pdf(at.brdf, at.normal, at.wo, s.wi));
            let alone = rules.product(rules.quotient(cosine, s.pdf), Scalar::one());
            let shared = rules.product(rules.quotient(cosine, s.pdf), rules.quotient(s.pdf, both));
            &&& rules.scaled(rules.scaled(scattered, alone), s.pdf) == rules.scaled(scattered, cosine)
            &&& rules.scaled(rules.scaled(scattered, shared), both) == rules.scaled(scattered, cosine)
        }),
    ensures
        rules.scaled(
            rules.contribution(strategy, light, at, s),
            if strategy == SamplingStrategy::Mis && !light.is_delta() {
                rules.sum(s.pdf, rules.brdf_pdf(at.brdf, at.normal, at.wo, s.wi))
            } else {
                s.pdf
            },
        ) == rules.scaled(
            rules.times(rules.brdf_eval(at.brdf, at.normal, at.wo, s.wi), s.li),
            rules.dot(at.normal, s.wi),
        ),
{
}

/// A light adds what its sample contributes exactly if it is sampled, stands above
/// the surface, and nothing lies between; a shadow ray is traced exactly if it is
/// sampled and stands above.
pub proof fn law_shadows_are_dark(
    rules: TraceRules,
    cfg: PathTracerConfig,
    strategy: SamplingStrategy,
    at: ShadingPoint,
    light: Light,
    lit: Lit,
)
    ensures
        ({
            let next = rules.lit_by(cfg, strategy, at, light, lit);
            let sample = rules.arith.light_sample(light, at.position, lit.rng, cfg.scene.textures@);
            let found = strategy == SamplingStrategy::BrdfOnly && !light.is_delta();
            &&& found ==> next == lit
            &&& !found ==> next.rng == light.rng_after(lit.rng)
            &&& !found && sample is None ==> next.total == lit.total && next.shadow_rays == lit.shadow_rays
            &&& !found ==> (sample matches Some(s) ==> {
                let above = Scalar::zero().lt(rules.arith.dot(at.normal, s.wi));
                let blocked = rules.is_blocked(*cfg.bvh, rules.arith.shadow_ray(at, s));
                &&& rules.arith.dot(at.normal, s.wi).ordered() ==> next.shadow_rays == lit.shadow_rays + (if above {
                    1nat
                } else {
                    0nat
                })
                &&& above && !blocked ==> next.total == rules.arith.plus(
                    lit.total,
                    rules.arith.contribution(strategy, light, at, s),
                )
                &&& rules.arith.dot(at.normal, s.wi).ordered() && (!above || blocked) ==> next.total == lit.total
            })
        }),
{
}

/// A shadow ray runs from the surface toward the light, and ends before it: never
/// behind it, wherever less a positive number is less; without end if the light is
/// in no place.
pub proof fn law_shadow_ray_ends_before_the_light(rules: ArithRules, at: ShadingPoint, s: LightSample)
    requires
        rules.keeps_zeros(),
        rules.orders_sums(),
        Scalar::zero().le(s.distance),
    ensures
        ({
            let ray = rules.shadow_ray(at, s);
            &&& ray.org == at.position
            &&& ray.dir == s.wi
            &&& ray.tmin == Scalar::zero()
            &&& ray.tmax.le(s.distance)
            &&& !s.distance.is_finite() ==> !ray.tmax.is_finite()
        }),
{
    assert(rules.difference(s.distance, Scalar::zero()) == s.distance);
}

/// Light adds up light by light, and without lights there is none.
pub proof fn law_lights_add_up(rules: TraceRules, cfg: PathTracerConfig, strategy: SamplingStrategy, at: ShadingPoint, rng: Stream)
    ensures
        cfg.lights@.len() == 0 ==> rules.direct(cfg, strategy, at, rng) == (Lit { total: black(), shadow_rays: 0, rng }),
        cfg.lights@.len() == 1 ==> rules.direct(cfg, strategy, at, rng) == rules.lit_by(
            cfg,
            strategy,
            at,
            cfg.lights@[0],
            Lit { total: black(), shadow_rays: 0, rng },
        ),
        cfg.lights@.len() > 0 ==> rules.direct(cfg, strategy, at, rng) == rules.lit_by(
            cfg,
            strategy,
            at,
            cfg.lights@.last(),
            rules.lit(cfg, strategy, at, rng, (cfg.lights@.len() - 1) as nat),
        ),
{
    reveal_with_fuel(TraceRules::lit, 2);
}

} // verus!
