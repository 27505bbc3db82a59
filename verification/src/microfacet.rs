//! Scattering at rough surfaces: Fresnel terms, the GGX microfacet distribution,
//! orthonormal bases and hemisphere sampling.
use vstd::prelude::*;
use crate::arith::{blend, law_blend_has_corners, minus, plus, scaled, unit, Arith, ArithRules};
use crate::scalar::{Point3, Scalar};
use crate::scene::{white, Color};

verus! {

/// Key of pi.
pub const PI_KEY: i32 = 0x4049_0fdb;

/// Key of twice pi.
pub const TWO_PI_KEY: i32 = 0x40c9_0fdb;

/// Key of two.
pub const TWO_KEY: i32 = 0x4000_0000;

/// Key of the share of red in luminance.
pub const LUMA_RED_KEY: i32 = 0x3e59_b3d0;

/// Key of the share of green in luminance.
pub const LUMA_GREEN_KEY: i32 = 0x3f37_1759;

/// Key of the share of blue in luminance.
pub const LUMA_BLUE_KEY: i32 = 0x3d93_dd98;

/// Key of the least probability of the specular lobe.
pub const MIN_SPECULAR_KEY: i32 = 0x3dcc_cccd;

/// Key of the greatest probability of the specular lobe.
pub const MAX_SPECULAR_KEY: i32 = 0x3f66_6666;

/// A direction, with the density at which it was drawn.
#[derive(Clone, Copy, PartialEq, Eq, Structural, Debug)]
pub struct HemisphereSample {
    pub wi: Point3,
    pub pdf: Scalar,
}

/// Two directions that make an orthonormal basis with a third.
#[derive(Clone, Copy, PartialEq, Eq, Structural, Debug)]
pub struct Basis {
    pub tangent: Point3,
    pub bitangent: Point3,
}

impl ArithRules {
    /// The reflectance of a dielectric at normal incidence.
    pub open spec fn facing_reflectance(self, ior: Scalar) -> Scalar {
        self.whole_power(self.quotient(self.difference(ior, Scalar::one()), self.sum(ior, Scalar::one())), 2)
    }

    /// Schlick approximation for unpolarized dielectric Fresnel.
    /// `cos_theta_i` must be in [0, 1].
    pub open spec fn fresnel_dielectric(self, cos_theta_i: Scalar, ior: Scalar) -> Scalar {
        let r0 = self.facing_reflectance(ior);
        self.sum(r0, self.product(self.difference(Scalar::one(), r0), self.whole_power(self.difference(Scalar::one(), cos_theta_i), 5)))
    }

    /// Schlick Fresnel for conductors. `f0` is the reflectance at normal incidence.
    pub open spec fn schlick(self, f0: Color, cos_h: Scalar) -> Color {
        let p5 = self.whole_power(self.difference(Scalar::one(), cos_h), 5);
        self.plus(f0, self.scaled(self.minus(white(), f0), p5))
    }

    /// The GGX distribution of microfacet normals.
    pub open spec fn ggx_d(self, cos_n_h: Scalar, a2: Scalar) -> Scalar {
        let d = self.fused(self.product(cos_n_h, self.difference(a2, Scalar::one())), cos_n_h, Scalar::one());
        self.quotient(a2, self.product(self.product(Scalar { key: PI_KEY }, d), d))
    }

    /// The denominator of the Smith masking function.
    pub open spec fn smith_denominator(self, cos_theta: Scalar, a2: Scalar) -> Scalar {
        let one_minus_a2 = self.difference(Scalar::one(), a2);
        self.sum(cos_theta, self.root(self.fused(self.product(one_minus_a2, cos_theta), cos_theta, a2)))
    }

    /// Smith masking function.
    pub open spec fn smith_g1(self, cos_theta: Scalar, a2: Scalar) -> Scalar {
        self.quotient(self.product(Scalar { key: TWO_KEY }, cos_theta), self.smith_denominator(cos_theta, a2))
    }

    /// Masking toward both directions, over four times both cosines.
    pub open spec fn smith_g2_over_denom4(self, cos_o: Scalar, cos_i: Scalar, a2: Scalar) -> Scalar {
        self.quotient(Scalar::one(), self.product(self.smith_denominator(cos_o, a2), self.smith_denominator(cos_i, a2)))
    }

    /// Tangent and bitangent orthonormal to `n`, by Frisvad's method.
    pub open spec fn frisvad_onb(self, n: Point3) -> Basis {
        let sign = if Scalar::zero().le(n.z) {
            Scalar::one()
        } else {
            Scalar::one().negated()
        };
        let a = self.quotient(Scalar::one().negated(), self.sum(sign, n.z));
        let b = self.product(self.product(n.x, n.y), a);
        Basis {
            tangent: Point3 {
                x: self.sum(Scalar::one(), self.product(self.product(self.product(sign, n.x), n.x), a)),
                y: self.product(sign, b),
                z: self.product(sign.negated(), n.x),
            },
            bitangent: Point3 { x: b, y: self.sum(sign, self.product(self.product(n.y, n.y), a)), z: n.y.negated() },
        }
    }

    /// How bright a color looks.
    pub open spec fn luminance(self, c: Color) -> Scalar {
        self.sum(
            self.sum(
                self.product(Scalar { key: LUMA_RED_KEY }, c.x),
                self.product(Scalar { key: LUMA_GREEN_KEY }, c.y),
            ),
            self.product(Scalar { key: LUMA_BLUE_KEY }, c.z),
        )
    }

    /// Probability of sampling the specular lobe: the luminance of the base
    /// reflectance, kept away from 0 and 1.
    pub open spec fn spec_prob(self, f0: Color) -> Scalar {
        self.luminance(f0).clamped(Scalar { key: MIN_SPECULAR_KEY }, Scalar { key: MAX_SPECULAR_KEY })
    }

    /// A direction given in the basis around `n`, in world space.
    pub open spec fn from_local(self, n: Point3, local: Point3) -> Point3 {
        let basis = self.frisvad_onb(n);
        self.unit(self.blend(basis.tangent, local.x, basis.bitangent, local.y, n, local.z))
    }

    /// Cosine-weighted hemisphere sample around `normal`.
    pub open spec fn sample_cosine_hemisphere(self, normal: Point3, u1: Scalar, u2: Scalar) -> HemisphereSample {
        let radius = self.root(u1);
        let phi = self.product(Scalar { key: TWO_PI_KEY }, u2);
        let local = Point3 {
            x: self.product(radius, self.cosine(phi)),
            y: self.product(radius, self.sine(phi)),
            z: self.root(self.difference(Scalar::one(), u1)),
        };
        HemisphereSample { wi: self.from_local(normal, local), pdf: self.quotient(local.z, Scalar { key: PI_KEY }) }
    }

    /// A microfacet normal drawn from the GGX distribution around `n`.
    pub open spec fn sample_ggx(self, n: Point3, a2: Scalar, u1: Scalar, u2: Scalar) -> Point3 {
        let cos_h = self.root(
            self.quotient(
                self.difference(Scalar::one(), u1),
                self.sum(Scalar::one(), self.product(self.difference(a2, Scalar::one()), u1)),
            ),
        ).clamped(Scalar::zero(), Scalar::one());
        let sin_h = self.root(self.difference(Scalar::one(), self.product(cos_h, cos_h)));
        let phi = self.product(Scalar { key: TWO_PI_KEY }, u2);
        let local = Point3 { x: self.product(sin_h, self.cosine(phi)), y: self.product(sin_h, self.sine(phi)), z: cos_h };
        self.from_local(n, local)
    }

    /// The direction that mirrors `wo` about `h`, given the cosine between them;
    /// not made unit length.
    pub open spec fn mirrored(self, wo: Point3, h: Point3, cos_h_o: Scalar) -> Point3 {
        self.minus(self.scaled(h, self.product(Scalar { key: TWO_KEY }, cos_h_o)), wo)
    }
}

/// Schlick approximation for unpolarized dielectric Fresnel.
/// `cos_theta_i` must be in [0, 1].
pub fn fresnel_dielectric<M: Arith>(math: &M, cos_theta_i: Scalar, ior: Scalar) -> (r: Scalar)
    ensures
        forall|rules: ArithRules| #[trigger] rules.describe(*math) ==> r == rules.fresnel_dielectric(cos_theta_i, ior),
{
    let r0 = math.whole_power(math.quotient(math.difference(ior, Scalar::one()), math.sum(ior, Scalar::one())), 2);
    math.sum(r0, math.product(math.difference(Scalar::one(), r0), math.whole_power(math.difference(Scalar::one(), cos_theta_i), 5)))
}

/// Schlick Fresnel for conductors. `f0` is the reflectance at normal incidence.
pub fn schlick<M: Arith>(math: &M, f0: Color, cos_h: Scalar) -> (r: Color)
    ensures
        forall|rules: ArithRules| #[trigger] rules.describe(*math) ==> r == rules.schlick(f0, cos_h),
{
    let p5 = math.whole_power(math.difference(Scalar::one(), cos_h), 5);
    plus(math, f0, scaled(math, minus(math, white(), f0), p5))
}

/// The GGX distribution of microfacet normals.
pub fn ggx_d<M: Arith>(math: &M, cos_n_h: Scalar, a2: Scalar) -> (r: Scalar)
    ensures
        forall|rules: ArithRules| #[trigger] rules.describe(*math) ==> r == rules.ggx_d(cos_n_h, a2),
{
    let d = math.fused(math.product(cos_n_h, math.difference(a2, Scalar::one())), cos_n_h, Scalar::one());
    math.quotient(a2, math.product(math.product(Scalar { key: PI_KEY }, d), d))
}

/// The denominator of the Smith masking function.
pub fn smith_denominator<M: Arith>(math: &M, cos_theta: Scalar, a2: Scalar) -> (r: Scalar)
    ensures
        forall|rules: ArithRules| #[trigger] rules.describe(*math) ==> r == rules.smith_denominator(cos_theta, a2),
{
    let one_minus_a2 = math.difference(Scalar::one(), a2);
    math.sum(cos_theta, math.root(math.fused(math.product(one_minus_a2, cos_theta), cos_theta, a2)))
}

/// Smith masking function.
pub fn smith_g1<M: Arith>(math: &M, cos_theta: Scalar, a2: Scalar) -> (r: Scalar)
    ensures
        forall|rules: ArithRules| #[trigger] rules.describe(*math) ==> r == rules.smith_g1(cos_theta, a2),
{
    math.quotient(math.product(Scalar { key: TWO_KEY }, cos_theta), smith_denominator(math, cos_theta, a2))
}

/// Masking toward both directions, over four times both cosines.
pub fn smith_g2_over_denom4<M: Arith>(math: &M, cos_o: Scalar, cos_i: Scalar, a2: Scalar) -> (r: Scalar)
    ensures
        forall|rules: ArithRules| #[trigger] rules.describe(*math) ==> r == rules.smith_g2_over_denom4(cos_o, cos_i, a2),
{
    math.quotient(Scalar::one(), math.product(smith_denominator(math, cos_o, a2), smith_denominator(math, cos_i, a2)))
}

/// Tangent and bitangent orthonormal to `n`, by Frisvad's method.
pub fn frisvad_onb<M: Arith>(math: &M, n: Point3) -> (r: Basis)
    ensures
        forall|rules: ArithRules| #[trigger] rules.describe(*math) ==> r == rules.frisvad_onb(n),
{
    let sign = if Scalar::zero().le(n.z) {
        Scalar::one()
    } else {
        Scalar::one().negated()
    };
    let a = math.quotient(Scalar::one().negated(), math.sum(sign, n.z));
    let b = math.product(math.product(n.x, n.y), a);
    Basis {
        tangent: Point3 {
            x: math.sum(Scalar::one(), math.product(math.product(math.product(sign, n.x), n.x), a)),
            y: math.product(sign, b),
            z: math.product(sign.negated(), n.x),
        },
        bitangent: Point3 { x: b, y: math.sum(sign, math.product(math.product(n.y, n.y), a)), z: n.y.negated() },
    }
}

/// How bright a color looks.
pub fn luminance<M: Arith>(math: &M, c: Color) -> (r: Scalar)
    ensures
        forall|rules: ArithRules| #[trigger] rules.describe(*math) ==> r == rules.luminance(c),
{
    math.sum(
        math.sum(
            math.product(Scalar { key: LUMA_RED_KEY }, c.x),
            math.product(Scalar { key: LUMA_GREEN_KEY }, c.y),
        ),
        math.product(Scalar { key: LUMA_BLUE_KEY }, c.z),
    )
}

/// Probability of sampling the specular lobe: the luminance of the base
/// reflectance, kept away from 0 and 1.
pub fn spec_prob<M: Arith>(math: &M, f0: Color) -> (r: Scalar)
    ensures
        forall|rules: ArithRules| #[trigger] rules.describe(*math) ==> r == rules.spec_prob(f0),
{
    luminance(math, f0).clamped(Scalar { key: MIN_SPECULAR_KEY }, Scalar { key: MAX_SPECULAR_KEY })
}

/// A direction given in the basis around `n`, in world space.
pub fn from_local<M: Arith>(math: &M, n: Point3, local: Point3) -> (r: Point3)
    ensures
        forall|rules: ArithRules| #[trigger] rules.describe(*math) ==> r == rules.from_local(n, local),
{
    let basis = frisvad_onb(math, n);
    unit(math, blend(math, basis.tangent, local.x, basis.bitangent, local.y, n, local.z))
}

/// Cosine-weighted hemisphere sample around `normal`.
pub fn sample_cosine_hemisphere<M: Arith>(math: &M, normal: Point3, u1: Scalar, u2: Scalar) -> (r: HemisphereSample)
    ensures
        forall|rules: ArithRules| #[trigger] rules.describe(*math) ==> r == rules.sample_cosine_hemisphere(normal, u1, u2),
{
    let radius = math.root(u1);
    let phi = math.product(Scalar { key: TWO_PI_KEY }, u2);
    let local = Point3 {
        x: math.product(radius, math.cosine(phi)),
        y: math.product(radius, math.sine(phi)),
        z: math.root(math.difference(Scalar::one(), u1)),
    };
    HemisphereSample { wi: from_local(math, normal, local), pdf: math.quotient(local.z, Scalar { key: PI_KEY }) }
}

/// A microfacet normal drawn from the GGX distribution around `n`.
pub fn sample_ggx<M: Arith>(math: &M, n: Point3, a2: Scalar, u1: Scalar, u2: Scalar) -> (r: Point3)
    ensures
        forall|rules: ArithRules| #[trigger] rules.describe(*math) ==> r == rules.sample_ggx(n, a2, u1, u2),
{
    let cos_h = math.root(
        math.quotient(
            math.difference(Scalar::one(), u1),
            math.sum(Scalar::one(), math.product(math.difference(a2, Scalar::one()), u1)),
        ),
    ).clamped(Scalar::zero(), Scalar::one());
    let sin_h = math.root(math.difference(Scalar::one(), math.product(cos_h, cos_h)));
    let phi = math.product(Scalar { key: TWO_PI_KEY }, u2);
    let local = Point3 { x: math.product(sin_h, math.cosine(phi)), y: math.product(sin_h, math.sine(phi)), z: cos_h };
    from_local(math, n, local)
}

/// The direction that mirrors `wo` about `h`, given the cosine between them;
/// not made unit length.
pub fn mirrored<M: Arith>(math: &M, wo: Point3, h: Point3, cos_h_o: Scalar) -> (r: Point3)
    ensures
        forall|rules: ArithRules| #[trigger] rules.describe(*math) ==> r == rules.mirrored(wo, h, cos_h_o),
{
    minus(math, scaled(math, h, math.product(Scalar { key: TWO_KEY }, cos_h_o)), wo)
}

/// Whether a scalar is a number from zero to one.
pub open spec fn is_share(x: Scalar) -> bool {
    Scalar::zero().le(x) && x.le(Scalar::one())
}

/// What is asked of an arithmetic for shares to be told apart: on numbers from
/// zero to one, what is left of one, fifth powers, products and sums keep or turn
/// the order, what is left, powers and products stay from zero to one, and zero and
/// one do as they should. Rounding to the nearest number does all this.
pub open spec fn keeps_shares(rules: ArithRules) -> bool {
    &&& forall|a: Scalar| is_share(a) ==> is_share(#[trigger] rules.difference(Scalar::one(), a))
    &&& forall|a: Scalar| is_share(a) ==> is_share(#[trigger] rules.whole_power(a, 5))
    &&& forall|a: Scalar, b: Scalar| is_share(a) && is_share(b) ==> is_share(#[trigger] rules.product(a, b))
    &&& forall|a: Scalar, b: Scalar|
        #![trigger rules.difference(Scalar::one(), a), rules.difference(Scalar::one(), b)]
        is_share(a) && is_share(b) && a.le(b) ==> rules.difference(Scalar::one(), b).le(rules.difference(Scalar::one(), a))
    &&& forall|a: Scalar, b: Scalar|
        #![trigger rules.whole_power(a, 5), rules.whole_power(b, 5)]
        is_share(a) && is_share(b) && a.le(b) ==> rules.whole_power(a, 5).le(rules.whole_power(b, 5))
    &&& forall|x: Scalar, a: Scalar, b: Scalar|
        #![trigger rules.product(x, a), rules.product(x, b)]
        is_share(x) && is_share(a) && is_share(b) && a.le(b) ==> rules.product(x, a).le(rules.product(x, b))
    &&& forall|x: Scalar, a: Scalar, b: Scalar|
        #![trigger rules.sum(x, a), rules.sum(x, b)]
        is_share(x) && is_share(a) && is_share(b) && a.le(b) ==> rules.sum(x, a).le(rules.sum(x, b))
    &&& rules.difference(Scalar::one(), Scalar::one()) == Scalar::zero()
    &&& rules.difference(Scalar::one(), Scalar::zero()) == Scalar::one()
    &&& rules.whole_power(Scalar::zero(), 5) == Scalar::zero()
    &&& rules.whole_power(Scalar::one(), 5) == Scalar::one()
    &&& forall|x: Scalar| is_share(x) ==> #[trigger] rules.product(x, Scalar::zero()) == Scalar::zero()
    &&& forall|x: Scalar| is_share(x) ==> #[trigger] rules.product(x, Scalar::one()) == x
    &&& forall|x: Scalar| is_share(x) ==> #[trigger] rules.sum(x, Scalar::zero()) == x
    &&& forall|x: Scalar| is_share(x) ==> #[trigger] rules.sum(x, rules.difference(Scalar::one(), x)) == Scalar::one()
}

/// At normal incidence a dielectric reflects its base reflectance.
pub proof fn law_fresnel_at_normal_incidence(rules: ArithRules, ior: Scalar)
    requires
        keeps_shares(rules),
        is_share(rules.facing_reflectance(ior)),
    ensures
        rules.fresnel_dielectric(Scalar::one(), ior) == rules.facing_reflectance(ior),
{
}

/// At grazing incidence a dielectric reflects everything.
pub proof fn law_fresnel_at_grazing_incidence(rules: ArithRules, ior: Scalar)
    requires
        keeps_shares(rules),
        is_share(rules.facing_reflectance(ior)),
    ensures
        rules.fresnel_dielectric(Scalar::zero(), ior) == Scalar::one(),
{
}

/// The further light comes from the side, the more of it a dielectric reflects.
pub proof fn law_fresnel_grows_with_the_angle(rules: ArithRules, steep: Scalar, flat: Scalar, ior: Scalar)
    requires
        keeps_shares(rules),
        is_share(rules.facing_reflectance(ior)),
        is_share(steep),
        is_share(flat),
        flat.le(steep),
    ensures
        rules.fresnel_dielectric(steep, ior).le(rules.fresnel_dielectric(flat, ior)),
{
    let r0 = rules.facing_reflectance(ior);
    let rest = rules.difference(Scalar::one(), r0);
    let a = rules.difference(Scalar::one(), steep);
    let b = rules.difference(Scalar::one(), flat);
    assert(a.le(b));
    let p = rules.whole_power(a, 5);
    let q = rules.whole_power(b, 5);
    assert(p.le(q));
    assert(rules.product(rest, p).le(rules.product(rest, q)));
}

/// Metals reflect their base color straight on and everything at grazing angles,
/// and more the further light comes from the side.
pub proof fn law_schlick_runs_from_base_to_white(rules: ArithRules, f0: Color, steep: Scalar, flat: Scalar)
    requires
        keeps_shares(rules),
        is_share(f0.x) && is_share(f0.y) && is_share(f0.z),
        is_share(steep),
        is_share(flat),
        flat.le(steep),
    ensures
        rules.schlick(f0, Scalar::one()) == f0,
        rules.schlick(f0, Scalar::zero()) == white(),
        rules.schlick(f0, steep).at_most(rules.schlick(f0, flat)),
{
    let a = rules.difference(Scalar::one(), steep);
    let b = rules.difference(Scalar::one(), flat);
    assert(a.le(b));
    let p = rules.whole_power(a, 5);
    let q = rules.whole_power(b, 5);
    assert(p.le(q));
    assert(rules.product(rules.difference(Scalar::one(), f0.x), p).le(
        rules.product(rules.difference(Scalar::one(), f0.x), q),
    ));
    assert(rules.product(rules.difference(Scalar::one(), f0.y), p).le(
        rules.product(rules.difference(Scalar::one(), f0.y), q),
    ));
    assert(rules.product(rules.difference(Scalar::one(), f0.z), p).le(
        rules.product(rules.difference(Scalar::one(), f0.z), q),
    ));
}

/// Black is dark, brighter channels make brighter colors, and of channels of one
/// strength green looks brightest and blue darkest.
pub proof fn law_luminance_weighs_channels(rules: ArithRules, dim: Color, bright: Color, c: Scalar)
    requires
        rules.keeps_zeros(),
        rules.orders_sums(),
        rules.orders_products(),
        dim.is_finite(),
        bright.is_finite(),
        dim.at_most(bright),
        c.is_finite() && Scalar::zero().le(c),
        ({
            let (r, g, b) = (Scalar { key: LUMA_RED_KEY }, Scalar { key: LUMA_GREEN_KEY }, Scalar { key: LUMA_BLUE_KEY });
            &&& rules.product(r, dim.x).is_finite() && rules.product(r, bright.x).is_finite()
            &&& rules.product(g, dim.y).is_finite() && rules.product(g, bright.y).is_finite()
            &&& rules.product(b, dim.z).is_finite() && rules.product(b, bright.z).is_finite()
            &&& rules.sum(rules.product(r, dim.x), rules.product(g, dim.y)).is_finite()
            &&& rules.sum(rules.product(r, bright.x), rules.product(g, bright.y)).is_finite()
            &&& rules.sum(rules.product(r, bright.x), rules.product(g, dim.y)).is_finite()
            &&& rules.product(r, c).ordered() && rules.product(g, c).ordered() && rules.product(b, c).ordered()
        }),
    ensures
        rules.luminance(Color { x: Scalar::zero(), y: Scalar::zero(), z: Scalar::zero() }) == Scalar::zero(),
        rules.luminance(dim).le(rules.luminance(bright)),
        ({
            let o = Scalar::zero();
            let red = rules.luminance(Color { x: c, y: o, z: o });
            let green = rules.luminance(Color { x: o, y: c, z: o });
            let blue = rules.luminance(Color { x: o, y: o, z: c });
            blue.le(red) && red.le(green)
        }),
{
    let (r, g, b) = (Scalar { key: LUMA_RED_KEY }, Scalar { key: LUMA_GREEN_KEY }, Scalar { key: LUMA_BLUE_KEY });
    let o = Scalar::zero();
    assert(rules.sum(o, o) == o);
    assert(rules.luminance(Color { x: c, y: o, z: o }) == rules.product(r, c)) by {
        assert(rules.product(g, o) == o && rules.product(b, o) == o);
    }
    assert(rules.luminance(Color { x: o, y: c, z: o }) == rules.product(g, c)) by {
        assert(rules.product(r, o) == o && rules.product(b, o) == o);
    }
    assert(rules.luminance(Color { x: o, y: o, z: c }) == rules.product(b, c)) by {
        assert(rules.product(r, o) == o && rules.product(g, o) == o);
    }
    assert(rules.product(b, c).le(rules.product(r, c)));
    assert(rules.product(r, c).le(rules.product(g, c)));
    let (p, q) = (rules.product(r, dim.x), rules.product(r, bright.x));
    let (s, t) = (rules.product(g, dim.y), rules.product(g, bright.y));
    assert(p.le(q) && s.le(t));
    assert(rules.sum(p, s).le(rules.sum(q, s)));
    assert(rules.sum(q, s).le(rules.sum(q, t)));
    let (x, y) = (rules.product(b, dim.z), rules.product(b, bright.z));
    assert(x.le(y));
    assert(rules.sum(rules.sum(p, s), x).le(rules.sum(rules.sum(q, t), x)));
    assert(rules.sum(rules.sum(q, t), x).le(rules.sum(rules.sum(q, t), y)));
}

/// Brighter surfaces sample their specular lobe more often, and every surface samples
/// both lobes.
pub proof fn law_both_lobes_are_sampled(rules: ArithRules, dim: Color, bright: Color)
    requires
        rules.luminance(dim).le(rules.luminance(bright)),
    ensures
        rules.spec_prob(dim).le(rules.spec_prob(bright)),
        Scalar::zero().lt(rules.spec_prob(dim)),
        rules.spec_prob(dim).lt(Scalar::one()),
        (Scalar { key: MIN_SPECULAR_KEY }).le(rules.luminance(dim)) && rules.luminance(dim).le(
            Scalar { key: MAX_SPECULAR_KEY },
        ) ==> rules.spec_prob(dim) == rules.luminance(dim),
{
}

/// Nothing is masked straight on, whatever the roughness; and the shared masking term
/// is the same both ways, and times both denominators one.
pub proof fn law_masking_vanishes_straight_on(rules: ArithRules, cos_o: Scalar, cos_i: Scalar, a2: Scalar)
    requires
        rules.keeps_ones(),
        rules.keeps_selves(),
        rules.commutes(),
        a2.is_finite(),
        rules.difference(Scalar::one(), a2).is_finite(),
        rules.fused(rules.difference(Scalar::one(), a2), Scalar::one(), a2) == Scalar::one(),
        rules.root(Scalar::one()) == Scalar::one(),
        rules.sum(Scalar::one(), Scalar::one()) == (Scalar { key: TWO_KEY }),
        ({
            let o = rules.smith_denominator(cos_o, a2);
            let i = rules.smith_denominator(cos_i, a2);
            &&& o.is_finite() && i.is_finite()
            &&& rules.product(rules.quotient(Scalar::one(), rules.product(o, i)), rules.product(o, i)) == Scalar::one()
        }),
    ensures
        rules.smith_g1(Scalar::one(), a2) == Scalar::one(),
        rules.smith_g2_over_denom4(cos_o, cos_i, a2) == rules.smith_g2_over_denom4(cos_i, cos_o, a2),
        rules.product(
            rules.smith_g2_over_denom4(cos_o, cos_i, a2),
            rules.product(rules.smith_denominator(cos_o, a2), rules.smith_denominator(cos_i, a2)),
        ) == Scalar::one(),
{
}

/// Masking toward one direction, times its denominator, is twice the cosine; and the
/// denominator, less the cosine, is a root of what the roughness adds to the square.
pub proof fn law_masking_follows_smith(rules: ArithRules, cos_theta: Scalar, a2: Scalar)
    requires
        ({
            let twice = rules.product(Scalar { key: TWO_KEY }, cos_theta);
            let spread = rules.fused(
                rules.product(rules.difference(Scalar::one(), a2), cos_theta),
                cos_theta,
                a2,
            );
            let denominator = rules.smith_denominator(cos_theta, a2);
            &&& rules.product(rules.quotient(twice, denominator), denominator) == twice
            &&& rules.difference(rules.sum(cos_theta, rules.root(spread)), cos_theta) == rules.root(spread)
            &&& rules.product(rules.root(spread), rules.root(spread)) == spread
        }),
    ensures
        rules.product(rules.smith_g1(cos_theta, a2), rules.smith_denominator(cos_theta, a2)) == rules.product(
            Scalar { key: TWO_KEY },
            cos_theta,
        ),
        ({
            let r = rules.difference(rules.smith_denominator(cos_theta, a2), cos_theta);
            rules.product(r, r) == rules.fused(
                rules.product(rules.difference(Scalar::one(), a2), cos_theta),
                cos_theta,
                a2,
            )
        }),
{
}

/// Fully rough facets face everywhere alike, with a density of one over pi; and the
/// density, times pi and the square of what the cosine leaves, is the squared width.
pub proof fn law_facets_spread_with_roughness(rules: ArithRules, cos_n_h: Scalar, a2: Scalar)
    requires
        rules.keeps_ones(),
        rules.keeps_zeros(),
        rules.keeps_selves(),
        cos_n_h.is_finite(),
        rules.fused(Scalar::zero(), cos_n_h, Scalar::one()) == Scalar::one(),
        ({
            let d = rules.fused(
                rules.product(cos_n_h, rules.difference(a2, Scalar::one())),
                cos_n_h,
                Scalar::one(),
            );
            let covered = rules.product(rules.product(Scalar { key: PI_KEY }, d), d);
            rules.product(rules.quotient(a2, covered), covered) == a2
        }),
    ensures
        rules.ggx_d(cos_n_h, Scalar::one()) == rules.quotient(Scalar::one(), Scalar { key: PI_KEY }),
        ({
            let d = rules.fused(
                rules.product(cos_n_h, rules.difference(a2, Scalar::one())),
                cos_n_h,
                Scalar::one(),
            );
            rules.product(
                rules.ggx_d(cos_n_h, a2),
                rules.product(rules.product(Scalar { key: PI_KEY }, d), d),
            ) == a2
        }),
{
}

/// Around the third axis, upward or downward, the basis is made of the other two
/// axes, and has the handedness of the axes; and each vector of it lies across the
/// normal as far as the axes that it has no part in are concerned.
pub proof fn law_basis_stands_on_the_normal(rules: ArithRules, up: Scalar)
    requires
        rules.keeps_ones(),
        rules.keeps_zeros(),
        up == Scalar::one() || up == Scalar::one().negated(),
        rules.quotient(Scalar::one().negated(), rules.sum(up, up)).is_finite(),
    ensures
        ({
            let o = Scalar::zero();
            let basis = rules.frisvad_onb(Point3 { x: o, y: o, z: up });
            &&& basis.tangent == (Point3 { x: Scalar::one(), y: o, z: o })
            &&& basis.bitangent == (Point3 { x: o, y: up, z: o })
        }),
{
    let o = Scalar::zero();
    let a = rules.quotient(Scalar::one().negated(), rules.sum(up, up));
    assert(rules.product(o, o) == o);
    assert(rules.product(up, o) == o);
    assert(rules.product(up.negated(), o) == o);
    assert(rules.product(o, a) == o);
    assert(rules.sum(Scalar::one(), o) == Scalar::one());
    assert(rules.sum(up, o) == up);
}

/// A direction that is nothing but up in its own basis is the normal in the world.
pub proof fn law_up_is_the_normal(rules: ArithRules, n: Point3)
    requires
        rules.keeps_ones(),
        rules.keeps_zeros(),
        n.is_finite(),
        rules.frisvad_onb(n).tangent.is_finite(),
        rules.frisvad_onb(n).bitangent.is_finite(),
    ensures
        rules.from_local(n, Point3 { x: Scalar::zero(), y: Scalar::zero(), z: Scalar::one() }) == rules.unit(n),
        rules.from_local(n, Point3 { x: Scalar::one(), y: Scalar::zero(), z: Scalar::zero() }) == rules.unit(
            rules.frisvad_onb(n).tangent,
        ),
        rules.from_local(n, Point3 { x: Scalar::zero(), y: Scalar::one(), z: Scalar::zero() }) == rules.unit(
            rules.frisvad_onb(n).bitangent,
        ),
{
    law_blend_has_corners(rules, rules.frisvad_onb(n).tangent, rules.frisvad_onb(n).bitangent, n);
}

/// Directions are sampled by their height above the surface: the density, times pi,
/// is the height; its square and the first number make one; and the first number
/// nothing leads straight up.
pub proof fn law_hemisphere_is_sampled_by_cosine(rules: ArithRules, normal: Point3, u1: Scalar, u2: Scalar)
    requires
        rules.keeps_ones(),
        rules.keeps_zeros(),
        normal.is_finite(),
        rules.frisvad_onb(normal).tangent.is_finite(),
        rules.frisvad_onb(normal).bitangent.is_finite(),
        rules.root(Scalar::zero()) == Scalar::zero(),
        rules.root(Scalar::one()) == Scalar::one(),
        ({
            let phi = rules.product(Scalar { key: TWO_PI_KEY }, u2);
            let height = rules.root(rules.difference(Scalar::one(), u1));
            let pi = Scalar { key: PI_KEY };
            &&& rules.cosine(phi).is_finite() && rules.sine(phi).is_finite()
            &&& rules.product(rules.quotient(height, pi), pi) == height
            &&& rules.product(height, height) == rules.difference(Scalar::one(), u1)
        }),
    ensures
        u1 == Scalar::zero() ==> rules.sample_cosine_hemisphere(normal, u1, u2).wi == rules.unit(normal),
        ({
            let height = rules.product(rules.sample_cosine_hemisphere(normal, u1, u2).pdf, Scalar { key: PI_KEY });
            &&& rules.product(height, height) == rules.difference(Scalar::one(), u1)
            &&& exists|x: Scalar, y: Scalar|
                rules.sample_cosine_hemisphere(normal, u1, u2).wi == #[trigger] rules.from_local(
                    normal,
                    Point3 { x, y, z: height },
                )
        }),
{
    let phi = rules.product(Scalar { key: TWO_PI_KEY }, u2);
    let height = rules.root(rules.difference(Scalar::one(), u1));
    let x = rules.product(rules.root(u1), rules.cosine(phi));
    let y = rules.product(rules.root(u1), rules.sine(phi));
    assert(rules.sample_cosine_hemisphere(normal, u1, u2).wi == rules.from_local(normal, Point3 { x, y, z: height }));
    law_up_is_the_normal(rules, normal);
    if u1 == Scalar::zero() {
        assert(rules.product(Scalar::zero(), rules.cosine(phi)) == Scalar::zero());
        assert(rules.product(Scalar::zero(), rules.sine(phi)) == Scalar::zero());
        assert(rules.difference(Scalar::one(), Scalar::zero()) == Scalar::one());
    }
}

/// The first number nothing picks the facet that faces as the surface does, and the
/// squared cosine of every facet, times what the width leaves, is what the number
/// leaves of one: rougher surfaces tilt their facets further.
pub proof fn law_facets_tilt_with_roughness(rules: ArithRules, n: Point3, a2: Scalar, u1: Scalar, u2: Scalar)
    requires
        rules.keeps_ones(),
        rules.keeps_zeros(),
        rules.keeps_selves(),
        n.is_finite(),
        rules.frisvad_onb(n).tangent.is_finite(),
        rules.frisvad_onb(n).bitangent.is_finite(),
        rules.difference(a2, Scalar::one()).is_finite(),
        rules.root(Scalar::zero()) == Scalar::zero(),
        rules.root(Scalar::one()) == Scalar::one(),
        ({
            let phi = rules.product(Scalar { key: TWO_PI_KEY }, u2);
            let rest = rules.difference(Scalar::one(), u1);
            let spread = rules.sum(Scalar::one(), rules.product(rules.difference(a2, Scalar::one()), u1));
            let c = rules.root(rules.quotient(rest, spread));
            &&& rules.cosine(phi).is_finite() && rules.sine(phi).is_finite()
            &&& is_share(c)
            &&& rules.product(rules.product(c, c), spread) == rest
        }),
    ensures
        u1 == Scalar::zero() ==> rules.sample_ggx(n, a2, u1, u2) == rules.unit(n),
        exists|x: Scalar, y: Scalar, c: Scalar|
            rules.sample_ggx(n, a2, u1, u2) == #[trigger] rules.from_local(n, Point3 { x, y, z: c }) && is_share(c)
                && rules.product(
                rules.product(c, c),
                rules.sum(Scalar::one(), rules.product(rules.difference(a2, Scalar::one()), u1)),
            ) == rules.difference(Scalar::one(), u1),
{
    let phi = rules.product(Scalar { key: TWO_PI_KEY }, u2);
    let rest = rules.difference(Scalar::one(), u1);
    let spread = rules.sum(Scalar::one(), rules.product(rules.difference(a2, Scalar::one()), u1));
    let c = rules.root(rules.quotient(rest, spread)).clamped(Scalar::zero(), Scalar::one());
    let s = rules.root(rules.difference(Scalar::one(), rules.product(c, c)));
    let x = rules.product(s, rules.cosine(phi));
    let y = rules.product(s, rules.sine(phi));
    assert(rules.sample_ggx(n, a2, u1, u2) == rules.from_local(n, Point3 { x, y, z: c }));
    law_up_is_the_normal(rules, n);
    if u1 == Scalar::zero() {
        assert(rules.difference(Scalar::one(), Scalar::zero()) == Scalar::one());
        assert(rules.product(rules.difference(a2, Scalar::one()), Scalar::zero()) == Scalar::zero());
        assert(rules.sum(Scalar::one(), Scalar::zero()) == Scalar::one());
        assert(rules.quotient(Scalar::one(), Scalar::one()) == Scalar::one());
        assert(c == Scalar::one());
        assert(rules.product(Scalar::one(), Scalar::one()) == Scalar::one());
        assert(rules.difference(Scalar::one(), Scalar::one()) == Scalar::zero());
        assert(rules.product(Scalar::zero(), rules.cosine(phi)) == Scalar::zero());
        assert(rules.product(Scalar::zero(), rules.sine(phi)) == Scalar::zero());
    }
}

/// A direction and its mirror image lie on both sides of the facet's normal: their sum
/// runs along it, twice as far as the direction does, wherever taking away can be
/// undone.
pub proof fn law_mirror_image_lies_across(rules: ArithRules, wo: Point3, h: Point3, cos_h_o: Scalar)
    requires
        ({
            let along = rules.scaled(h, rules.product(Scalar { key: TWO_KEY }, cos_h_o));
            rules.plus(rules.minus(along, wo), wo) == along
        }),
    ensures
        rules.plus(rules.mirrored(wo, h, cos_h_o), wo) == rules.scaled(
            h,
            rules.product(Scalar { key: TWO_KEY }, cos_h_o),
        ),
{
}

/// The second number turns a sampled direction around the normal: at the start of the
/// turn it leans along the first axis beside the normal, a quarter further along the
/// second; by the root of the first number for a hemisphere, and by what the cosine of
/// the facet leaves for a facet.
pub proof fn law_second_number_turns_around_the_normal(rules: ArithRules, n: Point3, a2: Scalar, u1: Scalar, u2: Scalar)
    requires
        rules.keeps_ones(),
        rules.keeps_zeros(),
        rules.root(u1).is_finite(),
        ({
            let cos_h = rules.root(
                rules.quotient(
                    rules.difference(Scalar::one(), u1),
                    rules.sum(Scalar::one(), rules.product(rules.difference(a2, Scalar::one()), u1)),
                ),
            ).clamped(Scalar::zero(), Scalar::one());
            rules.root(rules.difference(Scalar::one(), rules.product(cos_h, cos_h))).is_finite()
        }),
    ensures
        ({
            let phi = rules.product(Scalar { key: TWO_PI_KEY }, u2);
            let height = rules.root(rules.difference(Scalar::one(), u1));
            let o = Scalar::zero();
            let wi = rules.sample_cosine_hemisphere(n, u1, u2).wi;
            &&& rules.cosine(phi) == Scalar::one() && rules.sine(phi) == o ==> wi == rules.from_local(
                n,
                Point3 { x: rules.root(u1), y: o, z: height },
            )
            &&& rules.cosine(phi) == o && rules.sine(phi) == Scalar::one() ==> wi == rules.from_local(
                n,
                Point3 { x: o, y: rules.root(u1), z: height },
            )
            &&& rules.cosine(phi) == Scalar::one() && rules.sine(phi) == o ==> exists|s: Scalar, c: Scalar|
                rules.sample_ggx(n, a2, u1, u2) == #[trigger] rules.from_local(n, Point3 { x: s, y: o, z: c }) && s
                    == rules.root(rules.difference(Scalar::one(), rules.product(c, c)))
            &&& rules.cosine(phi) == o && rules.sine(phi) == Scalar::one() ==> exists|s: Scalar, c: Scalar|
                rules.sample_ggx(n, a2, u1, u2) == #[trigger] rules.from_local(n, Point3 { x: o, y: s, z: c }) && s
                    == rules.root(rules.difference(Scalar::one(), rules.product(c, c)))
        }),
{
    let o = Scalar::zero();
    let phi = rules.product(Scalar { key: TWO_PI_KEY }, u2);
    let c = rules.root(
        rules.quotient(
            rules.difference(Scalar::one(), u1),
            rules.sum(Scalar::one(), rules.product(rules.difference(a2, Scalar::one()), u1)),
        ),
    ).clamped(Scalar::zero(), Scalar::one());
    let s = rules.root(rules.difference(Scalar::one(), rules.product(c, c)));
    let r = rules.root(u1);
    assert(rules.product(r, o) == o && rules.product(r, Scalar::one()) == r);
    assert(rules.product(s, o) == o && rules.product(s, Scalar::one()) == s);
    if rules.cosine(phi) == Scalar::one() && rules.sine(phi) == o {
        assert(rules.sample_ggx(n, a2, u1, u2) == rules.from_local(n, Point3 { x: s, y: o, z: c }));
    }
    if rules.cosine(phi) == o && rules.sine(phi) == Scalar::one() {
        assert(rules.sample_ggx(n, a2, u1, u2) == rules.from_local(n, Point3 { x: o, y: s, z: c }));
    }
}

/// The basis leans with the normal and stays across it: a normal that leans along the
/// first axis turns the tangent by as much and leaves the bitangent, one that leans
/// along the second axis turns the bitangent and leaves the tangent, wherever what
/// the lean leaves of one is the height of the normal.
pub proof fn law_basis_leans_with_the_normal(rules: ArithRules, lean: Scalar, up: Scalar)
    requires
        rules.keeps_ones(),
        rules.keeps_zeros(),
        rules.keeps_signs(),
        lean.is_finite(),
        up.is_finite(),
        ({
            let sign = if Scalar::zero().le(up) {
                Scalar::one()
            } else {
                Scalar::one().negated()
            };
            let a = rules.quotient(Scalar::one().negated(), rules.sum(sign, up));
            &&& a.is_finite()
            &&& rules.sum(Scalar::one(), rules.product(rules.product(rules.product(sign, lean), lean), a))
                == up.magnitude()
            &&& rules.sum(sign, rules.product(rules.product(lean, lean), a)) == up
        }),
    ensures
        ({
            let o = Scalar::zero();
            let first = rules.frisvad_onb(Point3 { x: lean, y: o, z: up });
            let second = rules.frisvad_onb(Point3 { x: o, y: lean, z: up });
            let upward = Scalar::zero().le(up);
            &&& upward ==> first.tangent == (Point3 { x: up, y: o, z: lean.negated() })
            &&& upward ==> first.bitangent == (Point3 { x: o, y: Scalar::one(), z: o })
            &&& !upward ==> first.tangent == (Point3 { x: up.negated(), y: o, z: lean })
            &&& !upward ==> first.bitangent == (Point3 { x: o, y: Scalar::one().negated(), z: o })
            &&& second.tangent == (Point3 { x: Scalar::one(), y: o, z: o })
            &&& second.bitangent == (Point3 { x: o, y: up, z: lean.negated() })
        }),
{
    let o = Scalar::zero();
    let sign = if Scalar::zero().le(up) {
        Scalar::one()
    } else {
        Scalar::one().negated()
    };
    let a = rules.quotient(Scalar::one().negated(), rules.sum(sign, up));
    assert(o.negated() == o && Scalar::one().negated().negated() == Scalar::one());
    assert(rules.product(o, o) == o && rules.product(lean, o) == o && rules.product(o, lean) == o && rules.product(o, a)
        == o);
    assert(rules.product(sign, o) == o && rules.product(sign.negated(), o) == o);
    assert(rules.sum(Scalar::one(), o) == Scalar::one() && rules.sum(sign, o) == sign);
    assert(rules.product(Scalar::one(), lean) == lean);
    assert(rules.product(Scalar::one().negated(), lean) == rules.product(Scalar::one(), lean).negated());
}

} // verus!
