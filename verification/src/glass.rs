//! Scattering at dielectric surfaces.
use vstd::prelude::*;
use crate::arith::{dot, minus, plus, scaled, unit, Arith, ArithRules};
use crate::brdf::squared_alpha;
use crate::microfacet::{fresnel_dielectric, mirrored, sample_ggx, smith_g1, TWO_KEY};
use crate::pcg32::{Pcg32, Stream};
use crate::scalar::{Point3, Scalar};
use crate::scene::{white, Color};

verus! {

/// Key of the least cosine that is divided by.
pub const GLASS_FLOOR_KEY: i32 = 0x3727_c5ac;

/// A direction to go on in, through a dielectric or back from it.
#[derive(Clone, Copy, PartialEq, Eq, Structural, Debug)]
pub struct GlassSample {
    pub wi: Point3,
    /// Multiply throughput by this (accounts for Fresnel, masking, density and
    /// the stochastic choice between reflection and transmission).
    pub weight: Color,
    pub is_reflect: bool,
}

/// A dielectric boundary as it is met from one side.
#[derive(Clone, Copy, PartialEq, Eq, Structural, Debug)]
pub struct Boundary {
    /// Shading normal, in the hemisphere of `wo`.
    pub n: Point3,
    pub wo: Point3,
    pub roughness: Scalar,
    pub ior: Scalar,
    /// Applied to what is transmitted only.
    pub tint: Color,
    /// Whether the path leaves the volume.
    pub is_exit: bool,
    /// Whether there is a volume behind the surface.
    pub thick: bool,
}

impl ArithRules {
    /// Snell refraction. `wo` points into the incident medium, `n` is in the same
    /// hemisphere, `eta` is the ratio of indices. None on total internal reflection.
    pub open spec fn refract(self, wo: Point3, n: Point3, eta: Scalar) -> Option<Point3> {
        let cos_i = self.dot(n, wo).max(Scalar::zero());
        let sin2_t = self.product(
            self.product(eta, eta),
            self.difference(Scalar::one(), self.product(cos_i, cos_i)).max(Scalar::zero()),
        );
        if Scalar::one().le(sin2_t) {
            None
        } else {
            let cos_t = self.root(self.difference(Scalar::one(), sin2_t));
            Some(
                self.unit(
                    self.plus(self.scaled(wo, eta.negated()), self.scaled(n, self.difference(self.product(eta, cos_i), cos_t))),
                ),
            )
        }
    }

    /// The weight that reflection and transmission share; the Fresnel term cancels.
    pub open spec fn glass_weight(self, b: Boundary, h: Point3, cos_n_wi: Scalar) -> Scalar {
        let a2 = self.squared_alpha(b.roughness);
        let cos_i = self.dot(b.n, b.wo).max(Scalar { key: GLASS_FLOOR_KEY });
        let cos_n_h = self.dot(b.n, h).max(Scalar { key: GLASS_FLOOR_KEY });
        self.quotient(
            self.product(self.product(self.smith_g1(cos_i, a2), self.smith_g1(cos_n_wi, a2)), self.dot(h, b.wo)),
            self.product(cos_i, cos_n_h),
        )
    }

    /// Reflection at a microfacet; none if it points below the surface.
    pub open spec fn glass_mirror(self, b: Boundary, h: Point3) -> Option<GlassSample> {
        let wi = self.unit(self.mirrored(b.wo, h, self.dot(h, b.wo)));
        let cos_n_wi = self.dot(b.n, wi);
        if cos_n_wi.le(Scalar::zero()) {
            None
        } else {
            Some(GlassSample { wi, weight: self.scaled(white(), self.glass_weight(b, h, cos_n_wi)), is_reflect: true })
        }
    }

    /// A transmitted direction, with its weight.
    pub open spec fn glass_transmitted(self, b: Boundary, h: Point3, wi: Point3) -> GlassSample {
        let cos_n_wi = self.dot(b.n, wi).magnitude().max(Scalar { key: GLASS_FLOOR_KEY });
        GlassSample { wi, weight: self.scaled(b.tint, self.glass_weight(b, h, cos_n_wi)), is_reflect: false }
    }

    /// Transmission at a microfacet. A volume refracts, and reflects totally where it
    /// cannot, with the weight of any reflection; a thin surface scatters straight on, or not at all if that would stay
    /// above it.
    pub open spec fn glass_transmission(self, b: Boundary, h: Point3) -> Option<GlassSample> {
        if b.thick {
            let eta = if b.is_exit {
                b.ior
            } else {
                self.quotient(Scalar::one(), b.ior)
            };
            match self.refract(b.wo, h, eta) {
                None => self.glass_mirror(b, h),
                Some(wi) => Some(self.glass_transmitted(b, h, wi)),
            }
        } else {
            let wi = self.unit(self.minus(b.wo, self.scaled(h, self.product(Scalar { key: TWO_KEY }, self.dot(h, b.wo)))));
            if Scalar::zero().le(self.dot(b.n, wi)) {
                None
            } else {
                Some(self.glass_transmitted(b, h, wi))
            }
        }
    }

    /// The sample that a microfacet and a uniform number give: reflection with the
    /// probability of the Fresnel term, else transmission.
    pub open spec fn glass_choice(self, b: Boundary, h: Point3, u3: Scalar) -> Option<GlassSample> {
        let fresnel = self.fresnel_dielectric(self.dot(h, b.wo), b.ior);
        if u3.lt(fresnel) {
            self.glass_mirror(b, h)
        } else {
            self.glass_transmission(b, h)
        }
    }
}

/// Snell refraction. `wo` points into the incident medium, `n` is in the same
/// hemisphere, `eta` is the ratio of indices. None on total internal reflection.
pub fn refract<M: Arith>(math: &M, wo: Point3, n: Point3, eta: Scalar) -> (r: Option<Point3>)
    ensures
        forall|rules: ArithRules| #[trigger] rules.describe(*math) ==> r == rules.refract(wo, n, eta),
{
    let cos_i = dot(math, n, wo).max(Scalar::zero());
    let sin2_t = math.product(
        math.product(eta, eta),
        math.difference(Scalar::one(), math.product(cos_i, cos_i)).max(Scalar::zero()),
    );
    if Scalar::one().le(sin2_t) {
        None
    } else {
        let cos_t = math.root(math.difference(Scalar::one(), sin2_t));
        Some(
            unit(
                math,
                plus(math, scaled(math, wo, eta.negated()), scaled(math, n, math.difference(math.product(eta, cos_i), cos_t))),
            ),
        )
    }
}

/// The weight that reflection and transmission share; the Fresnel term cancels.
fn glass_weight<M: Arith>(math: &M, b: Boundary, h: Point3, cos_n_wi: Scalar) -> (r: Scalar)
    ensures
        forall|rules: ArithRules| #[trigger] rules.describe(*math) ==> r == rules.glass_weight(b, h, cos_n_wi),
{
    let a2 = squared_alpha(math, b.roughness);
    let cos_i = dot(math, b.n, b.wo).max(Scalar { key: GLASS_FLOOR_KEY });
    let cos_n_h = dot(math, b.n, h).max(Scalar { key: GLASS_FLOOR_KEY });
    math.quotient(
        math.product(math.product(smith_g1(math, cos_i, a2), smith_g1(math, cos_n_wi, a2)), dot(math, h, b.wo)),
        math.product(cos_i, cos_n_h),
    )
}

/// Reflection at a microfacet; none if it points below the surface.
fn glass_mirror<M: Arith>(math: &M, b: Boundary, h: Point3) -> (r: Option<GlassSample>)
    ensures
        forall|rules: ArithRules| #[trigger] rules.describe(*math) ==> r == rules.glass_mirror(b, h),
{
    let wi = unit(math, mirrored(math, b.wo, h, dot(math, h, b.wo)));
    let cos_n_wi = dot(math, b.n, wi);
    if cos_n_wi.le(Scalar::zero()) {
        None
    } else {
        Some(GlassSample { wi, weight: scaled(math, white(), glass_weight(math, b, h, cos_n_wi)), is_reflect: true })
    }
}

/// A transmitted direction, with its weight.
fn glass_transmitted<M: Arith>(math: &M, b: Boundary, h: Point3, wi: Point3) -> (r: GlassSample)
    ensures
        forall|rules: ArithRules| #[trigger] rules.describe(*math) ==> r == rules.glass_transmitted(b, h, wi),
{
    let cos_n_wi = dot(math, b.n, wi).magnitude().max(Scalar { key: GLASS_FLOOR_KEY });
    GlassSample { wi, weight: scaled(math, b.tint, glass_weight(math, b, h, cos_n_wi)), is_reflect: false }
}

/// Transmission at a microfacet. A volume refracts, and reflects totally where it
/// cannot, with the weight of any reflection; a thin surface scatters straight on, or not at all if that would stay
/// above it.
fn glass_transmission<M: Arith>(math: &M, b: Boundary, h: Point3) -> (r: Option<GlassSample>)
    ensures
        forall|rules: ArithRules| #[trigger] rules.describe(*math) ==> r == rules.glass_transmission(b, h),
{
    if b.thick {
        let eta = if b.is_exit {
            b.ior
        } else {
            math.quotient(Scalar::one(), b.ior)
        };
        match refract(math, b.wo, h, eta) {
            None => glass_mirror(math, b, h),
            Some(wi) => Some(glass_transmitted(math, b, h, wi)),
        }
    } else {
        let wi = unit(math, minus(math, b.wo, scaled(math, h, math.product(Scalar { key: TWO_KEY }, dot(math, h, b.wo)))));
        if Scalar::zero().le(dot(math, b.n, wi)) {
            None
        } else {
            Some(glass_transmitted(math, b, h, wi))
        }
    }
}

/// The sample that a microfacet and a uniform number give: reflection with the
/// probability of the Fresnel term, else transmission.
fn glass_choice<M: Arith>(math: &M, b: Boundary, h: Point3, u3: Scalar) -> (r: Option<GlassSample>)
    ensures
        forall|rules: ArithRules| #[trigger] rules.describe(*math) ==> r == rules.glass_choice(b, h, u3),
{
    let fresnel = fresnel_dielectric(math, dot(math, h, b.wo), b.ior);
    if u3.lt(fresnel) {
        glass_mirror(math, b, h)
    } else {
        glass_transmission(math, b, h)
    }
}

impl ArithRules {
    /// The microfacet that two draws pick.
    pub open spec fn glass_facet(self, b: Boundary, rng: Stream) -> Point3 {
        self.sample_ggx(b.n, self.squared_alpha(b.roughness), rng.value(), rng.next().value())
    }

    /// The sample that a random stream picks: two draws for a microfacet and, if
    /// that is seen from `wo`, a third for the choice. None if it is not seen.
    pub open spec fn glass_sample(self, b: Boundary, rng: Stream) -> Option<GlassSample> {
        let h = self.glass_facet(b, rng);
        if self.dot(h, b.wo).le(Scalar::zero()) {
            None
        } else {
            self.glass_choice(b, h, rng.next().next().value())
        }
    }

    /// The random stream after a sample was drawn from it.
    pub open spec fn glass_rng(self, b: Boundary, rng: Stream) -> Stream {
        if self.dot(self.glass_facet(b, rng), b.wo).le(Scalar::zero()) {
            rng.next().next()
        } else {
            rng.next().next().next()
        }
    }
}

/// Sample the glass BSDF: GGX specular reflection or GGX-scattered transmission.
///
/// A thin boundary spreads the transmitted beam without bending it; a thick one
/// refracts it, and reflects where refraction is impossible.
pub fn sample_glass<M: Arith>(math: &M, b: Boundary, rng: &mut Pcg32) -> (r: Option<GlassSample>)
    ensures
        final(rng)@ == old(rng)@.next().next() || final(rng)@ == old(rng)@.next().next().next(),
        forall|rules: ArithRules| #[trigger]
            rules.describe(*math) ==> r == rules.glass_sample(b, old(rng)@) && final(rng)@ == rules.glass_rng(
                b,
                old(rng)@,
            ),
{
    let u1 = rng.next_f32();
    let u2 = rng.next_f32();
    let h = sample_ggx(math, b.n, squared_alpha(math, b.roughness), u1, u2);
    if dot(math, h, b.wo).le(Scalar::zero()) {
        return None;
    }
    let u3 = rng.next_f32();
    glass_choice(math, b, h, u3)
}

/// What is reflected is not tinted: the tint changes neither whether light is
/// reflected nor how.
pub proof fn law_reflection_is_untinted(rules: ArithRules, b: Boundary, tint: Color, rng: Stream)
    requires
        rules.glass_sample(b, rng) matches Some(s) && s.is_reflect,
    ensures
        rules.glass_sample(Boundary { tint, ..b }, rng) == rules.glass_sample(b, rng),
{
}

/// Where a microfacet reflects totally, the number drawn for the choice decides
/// nothing: what is reflected has the direction and the weight of plain reflection.
pub proof fn law_total_reflection_weighs_alike(rules: ArithRules, b: Boundary, h: Point3, u3: Scalar)
    requires
        b.thick,
        rules.refract(b.wo, h, if b.is_exit { b.ior } else { rules.quotient(Scalar::one(), b.ior) }) is None,
    ensures
        rules.glass_choice(b, h, u3) == rules.glass_mirror(b, h),
{
}

/// What is reflected never goes below the surface.
pub proof fn law_reflection_stays_above(rules: ArithRules, b: Boundary, rng: Stream)
    ensures
        rules.glass_sample(b, rng) matches Some(s) ==> s.is_reflect ==> !rules.dot(b.n, s.wi).le(Scalar::zero()),
{
}

/// What a thin surface transmits never stays above it.
pub proof fn law_thin_glass_lets_through(rules: ArithRules, b: Boundary, rng: Stream)
    requires
        !b.thick,
    ensures
        rules.glass_sample(b, rng) matches Some(s) ==> !s.is_reflect ==> !Scalar::zero().le(rules.dot(b.n, s.wi)),
{
}

/// Without a change of index light goes straight on, wherever the root of what is
/// left of one after a square is left is the number again.
pub proof fn law_even_index_bends_nothing(rules: ArithRules, wo: Point3, n: Point3)
    requires
        rules.keeps_ones(),
        rules.keeps_zeros(),
        rules.keeps_selves(),
        rules.keeps_signs(),
        rules.commutes(),
        wo.is_finite(),
        n.is_finite(),
        rules.dot(n, wo).is_finite() && Scalar::zero().lt(rules.dot(n, wo)),
        ({
            let c = rules.dot(n, wo);
            let rest = rules.difference(Scalar::one(), rules.product(c, c));
            &&& Scalar::zero().le(rest) && rest.lt(Scalar::one())
            &&& rules.root(rules.difference(Scalar::one(), rest)) == c
        }),
    ensures
        rules.refract(wo, n, Scalar::one()) == Some(rules.unit(wo.negated())),
{
    let c = rules.dot(n, wo);
    assert(c.max(Scalar::zero()) == c);
    let rest = rules.difference(Scalar::one(), rules.product(c, c));
    assert(rest.max(Scalar::zero()) == rest);
    assert(rules.product(Scalar::one(), Scalar::one()) == Scalar::one());
    assert(rules.product(Scalar::one(), c) == c);
    assert(rules.difference(c, c) == Scalar::zero());
    assert(rules.scaled(n, Scalar::zero()) == Point3::origin());
    let minus_one = Scalar::one().negated();
    assert(rules.product(wo.x, minus_one) == rules.product(minus_one, wo.x));
    assert(rules.product(wo.y, minus_one) == rules.product(minus_one, wo.y));
    assert(rules.product(wo.z, minus_one) == rules.product(minus_one, wo.z));
    assert(rules.product(Scalar::one().negated(), wo.x) == rules.product(Scalar::one(), wo.x).negated());
    assert(rules.product(Scalar::one().negated(), wo.y) == rules.product(Scalar::one(), wo.y).negated());
    assert(rules.product(Scalar::one().negated(), wo.z) == rules.product(Scalar::one(), wo.z).negated());
    assert(rules.scaled(wo, minus_one) == wo.negated());
    assert(rules.plus(wo.negated(), Point3::origin()) == wo.negated());
}

/// Light bends by Snell's law: it is reflected totally exactly if the sine, times the
/// ratio of indices, reaches one; and steep light passes wherever flat light does.
pub proof fn law_refraction_follows_snell(rules: ArithRules, steep: Point3, flat: Point3, n: Point3, eta: Scalar)
    requires
        rules.orders_sums(),
        rules.orders_products(),
        eta.is_finite(),
        rules.product(eta, eta).is_finite() && Scalar::zero().le(rules.product(eta, eta)),
        rules.dot(n, steep).is_finite(),
        rules.dot(n, flat).is_finite() && Scalar::zero().le(rules.dot(n, flat)),
        rules.dot(n, flat).le(rules.dot(n, steep)),
        rules.dot(n, steep).le(Scalar::one()),
        ({
            let c = rules.product(rules.dot(n, steep), rules.dot(n, steep));
            let d = rules.product(rules.dot(n, flat), rules.dot(n, flat));
            c.is_finite() && d.is_finite() && rules.product(rules.dot(n, flat), rules.dot(n, steep)).is_finite()
                && rules.difference(Scalar::one(), c).is_finite() && rules.difference(Scalar::one(), d).is_finite()
        }),
    ensures
        rules.refract(flat, n, eta) is Some ==> rules.refract(steep, n, eta) is Some,
        rules.refract(flat, n, eta) is None <==> Scalar::one().le(
            rules.product(
                rules.product(eta, eta),
                rules.difference(Scalar::one(), rules.product(rules.dot(n, flat), rules.dot(n, flat))).max(
                    Scalar::zero(),
                ),
            ),
        ),
{
    let s = rules.dot(n, steep);
    let f = rules.dot(n, flat);
    assert(s.max(Scalar::zero()) == s && f.max(Scalar::zero()) == f);
    assert(rules.product(f, f).le(rules.product(f, s)));
    assert(rules.product(f, s).le(rules.product(s, s)));
    let rs = rules.difference(Scalar::one(), rules.product(s, s));
    let rf = rules.difference(Scalar::one(), rules.product(f, f));
    assert(rs.le(rf));
    assert(rs.max(Scalar::zero()).le(rf.max(Scalar::zero())));
}

/// What goes into a denser volume is never reflected totally: seen from outside,
/// a microfacet transmits whatever is not reflected.
pub proof fn law_denser_glass_is_always_entered(rules: ArithRules, b: Boundary, h: Point3)
    requires
        rules.orders_products(),
        rules.orders_sums(),
        rules.keeps_ones(),
        rules.keeps_zeros(),
        b.thick,
        !b.is_exit,
        ({
            let e = rules.quotient(Scalar::one(), b.ior);
            let c = rules.dot(h, b.wo);
            &&& e.is_finite() && rules.product(e, e).is_finite()
            &&& Scalar::zero().le(rules.product(e, e)) && rules.product(e, e).lt(Scalar::one())
            &&& c.is_finite() && Scalar::zero().le(c)
            &&& rules.product(c, c).is_finite() && Scalar::zero().le(rules.product(c, c))
            &&& rules.difference(Scalar::one(), rules.product(c, c)).is_finite()
        }),
    ensures
        rules.glass_transmission(b, h) matches Some(s) && !s.is_reflect,
{
    let e = rules.quotient(Scalar::one(), b.ior);
    let c = rules.dot(h, b.wo);
    assert(c.max(Scalar::zero()) == c);
    let rest = rules.difference(Scalar::one(), rules.product(c, c));
    assert(rules.difference(Scalar::one(), Scalar::zero()) == Scalar::one());
    assert(rest.le(Scalar::one()));
    let sine = rest.max(Scalar::zero());
    assert(sine.le(Scalar::one()) && sine.is_finite());
    let ee = rules.product(e, e);
    assert(rules.product(ee, sine).le(rules.product(ee, Scalar::one())));
    assert(rules.product(ee, Scalar::one()) == ee);
}

/// What leaves a volume refracts by its index, and what goes in by the reciprocal:
/// the direction transmitted is that of refraction at this ratio.
pub proof fn law_volume_refracts_by_its_index(rules: ArithRules, b: Boundary, h: Point3)
    requires
        b.thick,
    ensures
        b.is_exit ==> (rules.refract(b.wo, h, b.ior) matches Some(wi) ==> (rules.glass_transmission(b, h) matches Some(s)
            && s.wi == wi && !s.is_reflect)),
        !b.is_exit ==> (rules.refract(b.wo, h, rules.quotient(Scalar::one(), b.ior)) matches Some(wi) ==> (
        rules.glass_transmission(b, h) matches Some(s) && s.wi == wi && !s.is_reflect)),
        b.is_exit && rules.refract(b.wo, h, b.ior) is None ==> rules.glass_transmission(b, h) == rules.glass_mirror(b, h),
{
}

/// What is reflected lies on the other side of the microfacet: together with where
/// the light comes from it runs along the facet's normal, wherever taking away can
/// be undone.
pub proof fn law_mirror_is_halfway(rules: ArithRules, b: Boundary, h: Point3)
    requires
        ({
            let along = rules.scaled(h, rules.product(Scalar { key: TWO_KEY }, rules.dot(h, b.wo)));
            rules.plus(rules.minus(along, b.wo), b.wo) == along
        }),
    ensures
        rules.glass_mirror(b, h) matches Some(s) ==> exists|m: Point3|
            s.wi == #[trigger] rules.unit(m) && rules.plus(m, b.wo) == rules.scaled(
                h,
                rules.product(Scalar { key: TWO_KEY }, rules.dot(h, b.wo)),
            ),
        rules.glass_mirror(b, h) matches Some(s) ==> s.is_reflect,
{
    let m = rules.mirrored(b.wo, h, rules.dot(h, b.wo));
    assert(rules.plus(m, b.wo) == rules.scaled(h, rules.product(Scalar { key: TWO_KEY }, rules.dot(h, b.wo))));
}

/// A thin surface transmits straight opposite to where it would reflect.
pub proof fn law_thin_glass_spreads_without_bending(rules: ArithRules, b: Boundary, h: Point3)
    requires
        !b.thick,
        rules.keeps_signs(),
        ({
            let along = rules.scaled(h, rules.product(Scalar { key: TWO_KEY }, rules.dot(h, b.wo)));
            let m = rules.minus(along, b.wo);
            &&& along.is_finite() && b.wo.is_finite() && m.is_finite()
            &&& rules.dot(m.negated(), m.negated()) == rules.dot(m, m)
            &&& rules.norm(m).is_finite()
        }),
    ensures
        rules.glass_transmission(b, h) matches Some(s) ==> {
            &&& !s.is_reflect
            &&& (rules.glass_mirror(b, h) matches Some(r) ==> s.wi == r.wi.negated())
        },
{
}

/// Light is reflected exactly if the number drawn is below the Fresnel term, or
/// refraction is impossible: the smaller the number, the sooner.
pub proof fn law_fresnel_decides(rules: ArithRules, b: Boundary, h: Point3, low: Scalar, high: Scalar)
    requires
        low.le(high),
    ensures
        ({
            let fresnel = rules.fresnel_dielectric(rules.dot(h, b.wo), b.ior);
            &&& low.lt(fresnel) ==> rules.glass_choice(b, h, low) == rules.glass_mirror(b, h)
            &&& !low.lt(fresnel) ==> rules.glass_choice(b, h, low) == rules.glass_transmission(b, h)
            &&& high.lt(fresnel) ==> rules.glass_choice(b, h, low) == rules.glass_choice(b, h, high)
        }),
{
}

/// What is transmitted is weighed by the tint channel by channel, what is reflected
/// by none: a white tint weighs all channels alike.
pub proof fn law_tint_weighs_channels(rules: ArithRules, b: Boundary, h: Point3, wi: Point3)
    requires
        rules.keeps_ones(),
        rules.keeps_zeros(),
        ({
            let cos = rules.dot(b.n, wi).magnitude().max(Scalar { key: GLASS_FLOOR_KEY });
            rules.glass_weight(b, h, cos).is_finite()
        }),
    ensures
        ({
            let cos = rules.dot(b.n, wi).magnitude().max(Scalar { key: GLASS_FLOOR_KEY });
            let w = rules.glass_transmitted(b, h, wi).weight;
            &&& b.tint.x == Scalar::one() ==> w.x == rules.glass_weight(b, h, cos)
            &&& b.tint.y == Scalar::one() ==> w.y == rules.glass_weight(b, h, cos)
            &&& b.tint.z == Scalar::one() ==> w.z == rules.glass_weight(b, h, cos)
            &&& b.tint.x == Scalar::zero() ==> w.x == Scalar::zero()
            &&& b.tint.y == Scalar::zero() ==> w.y == Scalar::zero()
            &&& b.tint.z == Scalar::zero() ==> w.z == Scalar::zero()
        }),
        rules.glass_mirror(b, h) matches Some(s) ==> s.weight.x == s.weight.y && s.weight.y == s.weight.z,
{
}

/// The weight of a microfacet, times both cosines at it, is what of the light is not
/// masked on either way, times how far the facet faces it, wherever dividing can be
/// undone.
pub proof fn law_glass_weight_balances(rules: ArithRules, b: Boundary, h: Point3, cos_n_wi: Scalar)
    requires
        ({
            let a2 = rules.squared_alpha(b.roughness);
            let cos_i = rules.dot(b.n, b.wo);
            let cos_n_h = rules.dot(b.n, h);
            let unmasked = rules.product(
                rules.product(rules.smith_g1(cos_i, a2), rules.smith_g1(cos_n_wi, a2)),
                rules.dot(h, b.wo),
            );
            let both = rules.product(cos_i, cos_n_h);
            &&& (Scalar { key: GLASS_FLOOR_KEY }).le(cos_i)
            &&& (Scalar { key: GLASS_FLOOR_KEY }).le(cos_n_h)
            &&& rules.product(rules.quotient(unmasked, both), both) == unmasked
        }),
    ensures
        rules.product(
            rules.glass_weight(b, h, cos_n_wi),
            rules.product(rules.dot(b.n, b.wo), rules.dot(b.n, h)),
        ) == rules.product(
            rules.product(
                rules.smith_g1(rules.dot(b.n, b.wo), rules.squared_alpha(b.roughness)),
                rules.smith_g1(cos_n_wi, rules.squared_alpha(b.roughness)),
            ),
            rules.dot(h, b.wo),
        ),
{
}

} // verus!
