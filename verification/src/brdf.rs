//! Scattering at opaque surfaces.
use vstd::prelude::*;
use crate::arith::{dot, minus, plus, scaled, shrunk, times, unit, Arith, ArithRules};
use crate::microfacet::{ggx_d, mirrored, sample_cosine_hemisphere, sample_ggx, schlick, smith_denominator, smith_g2_over_denom4, spec_prob, PI_KEY, TWO_KEY};
use crate::pcg32::{Pcg32, Stream};
use crate::scalar::{Point3, Scalar};
use crate::scene::{black, white, Color};

verus! {

/// Key of the reflectance of dielectrics at normal incidence.
pub const DIELECTRIC_KEY: i32 = 0x3d23_d70a;

/// Key of the least width of the microfacet distribution.
pub const MIN_ALPHA_KEY: i32 = 0x3a83_126f;

/// Key of the least cosine that is divided by.
pub const MIN_COSINE_KEY: i32 = 0x33d6_bf95;

/// Key of the number four.
pub const FOUR_KEY: i32 = 0x4080_0000;

/// A direction to go on in, with the scattering and the density there.
#[derive(Clone, Copy, PartialEq, Eq, Structural, Debug)]
pub struct BrdfSample {
    /// Sampled incident direction (next bounce), world space.
    pub wi: Point3,
    pub f: Color,
    /// Solid-angle density of `wi`.
    pub pdf: Scalar,
}

/// Scattering and its density, for one pair of directions.
#[derive(Clone, Copy, PartialEq, Eq, Structural, Debug)]
pub struct Scattering {
    pub f: Color,
    pub pdf: Scalar,
}

/// Surface scattering model for opaque surfaces. All directions in world space;
/// `wo` points toward the previous vertex.
#[derive(Clone, Copy, PartialEq, Eq, Structural, Debug)]
pub enum Brdf {
    Lambertian { albedo: Color },
    /// GGX Cook-Torrance with metallic-roughness workflow. Diffuse and specular
    /// lobes are sampled as a mixture.
    CookTorrance { albedo: Color, metallic: Scalar, roughness: Scalar },
}

/// Terms that depend only on the material and `wo`, shared by all `wi`.
#[derive(Clone, Copy, PartialEq, Eq, Structural, Debug)]
pub struct BrdfPrecomputed {
    pub a2: Scalar,
    pub one_minus_a2: Scalar,
    pub f0: Color,
    /// Probability of the specular lobe.
    pub p_s: Scalar,
    pub cos_n_o: Scalar,
    /// Smith denominator for `wo`.
    pub denom_o: Scalar,
}

impl ArithRules {
    /// The squared width of the microfacet distribution.
    pub open spec fn squared_alpha(self, roughness: Scalar) -> Scalar {
        let alpha = self.product(roughness, roughness).max(Scalar { key: MIN_ALPHA_KEY });
        self.product(alpha, alpha)
    }

    /// The reflectance at normal incidence.
    pub open spec fn base_reflectance(self, albedo: Color, metallic: Scalar) -> Color {
        let d = Scalar { key: DIELECTRIC_KEY };
        self.plus(self.scaled(Point3 { x: d, y: d, z: d }, self.difference(Scalar::one(), metallic)), self.scaled(albedo, metallic))
    }

    /// Diffuse and specular scattering together.
    pub open spec fn scattering(self, albedo: Color, metallic: Scalar, f: Color, specular: Scalar) -> Color {
        let kd = self.scaled(self.minus(white(), f), self.difference(Scalar::one(), metallic));
        self.plus(self.shrunk(self.times(kd, albedo), Scalar { key: PI_KEY }), self.scaled(f, specular))
    }

    /// The density of the mixture of lobes.
    pub open spec fn mixture_pdf(self, p_spec: Scalar, d: Scalar, cos_n_h: Scalar, cos_h_o: Scalar, diffuse: Scalar) -> Scalar {
        let pdf_spec = if (Scalar { key: MIN_COSINE_KEY }).lt(cos_h_o) {
            self.quotient(self.product(d, cos_n_h), self.product(Scalar { key: FOUR_KEY }, cos_h_o))
        } else {
            Scalar::zero()
        };
        self.sum(self.product(p_spec, pdf_spec), diffuse)
    }

    /// f_r(wo, wi). The cosine term and visibility are applied elsewhere.
    pub open spec fn brdf_eval(self, brdf: Brdf, normal: Point3, wo: Point3, wi: Point3) -> Color {
        match brdf {
            Brdf::Lambertian { albedo } => self.shrunk(albedo, Scalar { key: PI_KEY }),
            Brdf::CookTorrance { albedo, metallic, roughness } => {
                let cos_n_i = self.dot(normal, wi);
                let cos_n_o = self.dot(normal, wo);
                if cos_n_i.le(Scalar::zero()) || cos_n_o.le(Scalar::zero()) {
                    black()
                } else {
                    let h = self.unit(self.plus(wo, wi));
                    let cos_n_h = self.dot(normal, h).max(Scalar::zero());
                    let cos_h_o = self.dot(h, wo).max(Scalar::zero());
                    let a2 = self.squared_alpha(roughness);
                    let f = self.schlick(self.base_reflectance(albedo, metallic), cos_h_o);
                    let specular = self.product(self.ggx_d(cos_n_h, a2), self.smith_g2_over_denom4(cos_n_o, cos_n_i, a2));
                    self.scattering(albedo, metallic, f, specular)
                }
            },
        }
    }

    /// Solid-angle density of sampling `wi` given `wo`.
    pub open spec fn brdf_pdf(self, brdf: Brdf, normal: Point3, wo: Point3, wi: Point3) -> Scalar {
        match brdf {
            Brdf::Lambertian { .. } => self.quotient(self.dot(normal, wi).max(Scalar::zero()), Scalar { key: PI_KEY }),
            Brdf::CookTorrance { albedo, metallic, roughness } => {
                let cos_n_i = self.dot(normal, wi);
                if cos_n_i.le(Scalar::zero()) {
                    Scalar::zero()
                } else {
                    let h = self.unit(self.plus(wo, wi));
                    let cos_n_h = self.dot(normal, h).max(Scalar::zero());
                    let cos_h_o = self.dot(h, wo).max(Scalar::zero());
                    let a2 = self.squared_alpha(roughness);
                    let p_spec = self.spec_prob(self.base_reflectance(albedo, metallic));
                    let pdf_diff = self.quotient(cos_n_i, Scalar { key: PI_KEY });
                    self.mixture_pdf(
                        p_spec,
                        self.ggx_d(cos_n_h, a2),
                        cos_n_h,
                        cos_h_o,
                        self.product(self.difference(Scalar::one(), p_spec), pdf_diff),
                    )
                }
            },
        }
    }

    /// The terms shared by all `wi`. None for Lambertian surfaces and for surfaces
    /// that face away from `wo`.
    pub open spec fn brdf_precompute(self, brdf: Brdf, normal: Point3, wo: Point3) -> Option<BrdfPrecomputed> {
        match brdf {
            Brdf::Lambertian { .. } => None,
            Brdf::CookTorrance { albedo, metallic, roughness } => {
                let cos_n_o = self.dot(normal, wo);
                if cos_n_o.le(Scalar::zero()) {
                    None
                } else {
                    let a2 = self.squared_alpha(roughness);
                    let f0 = self.base_reflectance(albedo, metallic);
                    Some(
                        BrdfPrecomputed {
                            a2,
                            one_minus_a2: self.difference(Scalar::one(), a2),
                            f0,
                            p_s: self.spec_prob(f0),
                            cos_n_o,
                            denom_o: self.smith_denominator(cos_n_o, a2),
                        },
                    )
                }
            },
        }
    }

    /// The Cook-Torrance terms of a pair of directions above the surface, with a
    /// given masking factor.
    pub open spec fn lobes(self, albedo: Color, metallic: Scalar, f0: Color, a2: Scalar, p_s: Scalar, normal: Point3, wo: Point3, wi: Point3, cos_n_i: Scalar, masking: Scalar) -> Scattering {
        let h = self.unit(self.plus(wo, wi));
        let cos_n_h = self.dot(normal, h).max(Scalar::zero());
        let cos_h_o = self.dot(h, wo).max(Scalar::zero());
        let f = self.schlick(f0, cos_h_o);
        let d = self.ggx_d(cos_n_h, a2);
        Scattering {
            f: self.scattering(albedo, metallic, f, self.product(d, masking)),
            pdf: self.mixture_pdf(
                p_s,
                d,
                cos_n_h,
                cos_h_o,
                self.quotient(self.product(self.difference(Scalar::one(), p_s), cos_n_i), Scalar { key: PI_KEY }),
            ),
        }
    }

    /// Scattering and density of a Lambertian surface.
    pub open spec fn lambertian(self, albedo: Color, normal: Point3, wi: Point3) -> Scattering {
        Scattering {
            f: self.shrunk(albedo, Scalar { key: PI_KEY }),
            pdf: self.quotient(self.dot(normal, wi).max(Scalar::zero()), Scalar { key: PI_KEY }),
        }
    }

    /// Scattering and density, from the terms shared by all `wi`.
    pub open spec fn brdf_with_precomp(self, brdf: Brdf, normal: Point3, wo: Point3, wi: Point3, pre: BrdfPrecomputed) -> Scattering {
        match brdf {
            Brdf::Lambertian { albedo } => self.lambertian(albedo, normal, wi),
            Brdf::CookTorrance { albedo, metallic, .. } => {
                let cos_n_i = self.dot(normal, wi);
                if cos_n_i.le(Scalar::zero()) {
                    Scattering { f: black(), pdf: Scalar::zero() }
                } else {
                    let denom_i = self.sum(
                        cos_n_i,
                        self.root(self.fused(self.product(pre.one_minus_a2, cos_n_i), cos_n_i, pre.a2)),
                    );
                    let masking = self.quotient(Scalar::one(), self.product(pre.denom_o, denom_i));
                    self.lobes(albedo, metallic, pre.f0, pre.a2, pre.p_s, normal, wo, wi, cos_n_i, masking)
                }
            },
        }
    }

    /// Scattering and density in one pass.
    pub open spec fn brdf_eval_and_pdf(self, brdf: Brdf, normal: Point3, wo: Point3, wi: Point3) -> Scattering {
        match brdf {
            Brdf::Lambertian { albedo } => self.lambertian(albedo, normal, wi),
            Brdf::CookTorrance { albedo, metallic, roughness } => {
                let cos_n_i = self.dot(normal, wi);
                let cos_n_o = self.dot(normal, wo);
                if cos_n_i.le(Scalar::zero()) || cos_n_o.le(Scalar::zero()) {
                    Scattering { f: black(), pdf: Scalar::zero() }
                } else {
                    let a2 = self.squared_alpha(roughness);
                    let f0 = self.base_reflectance(albedo, metallic);
                    let masking = self.smith_g2_over_denom4(cos_n_o, cos_n_i, a2);
                    self.lobes(albedo, metallic, f0, a2, self.spec_prob(f0), normal, wo, wi, cos_n_i, masking)
                }
            },
        }
    }

    /// The direction that three uniform numbers pick: the first the lobe, the other
    /// two a direction in it. None if the microfacet is seen from behind or reflects
    /// below the surface.
    pub open spec fn lobe_direction(self, normal: Point3, wo: Point3, p_spec: Scalar, a2: Scalar, u0: Scalar, u1: Scalar, u2: Scalar) -> Option<Point3> {
        if u0.lt(p_spec) {
            let h = self.sample_ggx(normal, a2, u1, u2);
            let cos_h_o = self.dot(h, wo);
            if cos_h_o.le(Scalar::zero()) {
                None
            } else {
                let wi = self.mirrored(wo, h, cos_h_o);
                if self.dot(normal, wi).le(Scalar::zero()) {
                    None
                } else {
                    Some(self.unit(wi))
                }
            }
        } else {
            Some(self.sample_cosine_hemisphere(normal, u1, u2).wi)
        }
    }

    /// The sample of a Lambertian surface that two uniform numbers pick.
    pub open spec fn lambertian_sample(self, albedo: Color, normal: Point3, u1: Scalar, u2: Scalar) -> Option<BrdfSample> {
        let s = self.sample_cosine_hemisphere(normal, u1, u2);
        if s.pdf.le(Scalar::zero()) {
            None
        } else {
            Some(BrdfSample { wi: s.wi, f: self.shrunk(albedo, Scalar { key: PI_KEY }), pdf: s.pdf })
        }
    }

    /// The sample of a Cook-Torrance surface that three uniform numbers pick.
    pub open spec fn cook_torrance_sample(self, albedo: Color, metallic: Scalar, roughness: Scalar, normal: Point3, wo: Point3, u0: Scalar, u1: Scalar, u2: Scalar) -> Option<BrdfSample> {
        let a2 = self.squared_alpha(roughness);
        let p_spec = self.spec_prob(self.base_reflectance(albedo, metallic));
        match self.lobe_direction(normal, wo, p_spec, a2, u0, u1, u2) {
            None => None,
            Some(wi) => {
                let s = self.brdf_eval_and_pdf(Brdf::CookTorrance { albedo, metallic, roughness }, normal, wo, wi);
                if s.pdf.le(Scalar::zero()) {
                    None
                } else {
                    Some(BrdfSample { wi, f: s.f, pdf: s.pdf })
                }
            },
        }
    }
}

/// The squared width of the microfacet distribution.
pub fn squared_alpha<M: Arith>(math: &M, roughness: Scalar) -> (r: Scalar)
    ensures
        forall|rules: ArithRules| #[trigger] rules.describe(*math) ==> r == rules.squared_alpha(roughness),
{
    let alpha = math.product(roughness, roughness).max(Scalar { key: MIN_ALPHA_KEY });
    math.product(alpha, alpha)
}

/// The reflectance at normal incidence.
pub fn base_reflectance<M: Arith>(math: &M, albedo: Color, metallic: Scalar) -> (r: Color)
    ensures
        forall|rules: ArithRules| #[trigger] rules.describe(*math) ==> r == rules.base_reflectance(albedo, metallic),
{
    let d = Scalar { key: DIELECTRIC_KEY };
    plus(math, scaled(math, Point3 { x: d, y: d, z: d }, math.difference(Scalar::one(), metallic)), scaled(math, albedo, metallic))
}

/// Diffuse and specular scattering together.
pub fn scattering<M: Arith>(math: &M, albedo: Color, metallic: Scalar, f: Color, specular: Scalar) -> (r: Color)
    ensures
        forall|rules: ArithRules| #[trigger] rules.describe(*math) ==> r == rules.scattering(albedo, metallic, f, specular),
{
    let kd = scaled(math, minus(math, white(), f), math.difference(Scalar::one(), metallic));
    plus(math, shrunk(math, times(math, kd, albedo), Scalar { key: PI_KEY }), scaled(math, f, specular))
}

/// The density of the mixture of lobes.
pub fn mixture_pdf<M: Arith>(math: &M, p_spec: Scalar, d: Scalar, cos_n_h: Scalar, cos_h_o: Scalar, diffuse: Scalar) -> (r: Scalar)
    ensures
        forall|rules: ArithRules| #[trigger] rules.describe(*math) ==> r == rules.mixture_pdf(p_spec, d, cos_n_h, cos_h_o, diffuse),
{
    let pdf_spec = if (Scalar { key: MIN_COSINE_KEY }).lt(cos_h_o) {
        math.quotient(math.product(d, cos_n_h), math.product(Scalar { key: FOUR_KEY }, cos_h_o))
    } else {
        Scalar::zero()
    };
    math.sum(math.product(p_spec, pdf_spec), diffuse)
}

/// f_r(wo, wi). The cosine term and visibility are applied elsewhere.
fn brdf_eval<M: Arith>(math: &M, brdf: Brdf, normal: Point3, wo: Point3, wi: Point3) -> (r: Color)
    ensures
        forall|rules: ArithRules| #[trigger] rules.describe(*math) ==> r == rules.brdf_eval(brdf, normal, wo, wi),
{
    match brdf {
        Brdf::Lambertian { albedo } => shrunk(math, albedo, Scalar { key: PI_KEY }),
        Brdf::CookTorrance { albedo, metallic, roughness } => {
            let cos_n_i = dot(math, normal, wi);
            let cos_n_o = dot(math, normal, wo);
            if cos_n_i.le(Scalar::zero()) || cos_n_o.le(Scalar::zero()) {
                black()
            } else {
                let h = unit(math, plus(math, wo, wi));
                let cos_n_h = dot(math, normal, h).max(Scalar::zero());
                let cos_h_o = dot(math, h, wo).max(Scalar::zero());
                let a2 = squared_alpha(math, roughness);
                let f = schlick(math, base_reflectance(math, albedo, metallic), cos_h_o);
                let specular = math.product(ggx_d(math, cos_n_h, a2), smith_g2_over_denom4(math, cos_n_o, cos_n_i, a2));
                scattering(math, albedo, metallic, f, specular)
            }
        },
    }
}

/// Solid-angle density of sampling `wi` given `wo`.
fn brdf_pdf<M: Arith>(math: &M, brdf: Brdf, normal: Point3, wo: Point3, wi: Point3) -> (r: Scalar)
    ensures
        forall|rules: ArithRules| #[trigger] rules.describe(*math) ==> r == rules.brdf_pdf(brdf, normal, wo, wi),
{
    match brdf {
        Brdf::Lambertian { .. } => math.quotient(dot(math, normal, wi).max(Scalar::zero()), Scalar { key: PI_KEY }),
        Brdf::CookTorrance { albedo, metallic, roughness } => {
            let cos_n_i = dot(math, normal, wi);
            if cos_n_i.le(Scalar::zero()) {
                Scalar::zero()
            } else {
                let h = unit(math, plus(math, wo, wi));
                let cos_n_h = dot(math, normal, h).max(Scalar::zero());
                let cos_h_o = dot(math, h, wo).max(Scalar::zero());
                let a2 = squared_alpha(math, roughness);
                let p_spec = spec_prob(math, base_reflectance(math, albedo, metallic));
                let pdf_diff = math.quotient(cos_n_i, Scalar { key: PI_KEY });
                mixture_pdf(
                    math,
                    p_spec,
                    ggx_d(math, cos_n_h, a2),
                    cos_n_h,
                    cos_h_o,
                    math.product(math.difference(Scalar::one(), p_spec), pdf_diff),
                )
            }
        },
    }
}

/// The terms shared by all `wi`. None for Lambertian surfaces and for surfaces
/// that face away from `wo`.
fn brdf_precompute<M: Arith>(math: &M, brdf: Brdf, normal: Point3, wo: Point3) -> (r: Option<BrdfPrecomputed>)
    ensures
        forall|rules: ArithRules| #[trigger] rules.describe(*math) ==> r == rules.brdf_precompute(brdf, normal, wo),
{
    match brdf {
        Brdf::Lambertian { .. } => None,
        Brdf::CookTorrance { albedo, metallic, roughness } => {
            let cos_n_o = dot(math, normal, wo);
            if cos_n_o.le(Scalar::zero()) {
                None
            } else {
                let a2 = squared_alpha(math, roughness);
                let f0 = base_reflectance(math, albedo, metallic);
                Some(
                    BrdfPrecomputed {
                        a2,
                        one_minus_a2: math.difference(Scalar::one(), a2),
                        f0,
                        p_s: spec_prob(math, f0),
                        cos_n_o,
                        denom_o: smith_denominator(math, cos_n_o, a2),
                    },
                )
            }
        },
    }
}

/// The Cook-Torrance terms of a pair of directions above the surface, with a
/// given masking factor.
fn lobes<M: Arith>(math: &M, albedo: Color, metallic: Scalar, f0: Color, a2: Scalar, p_s: Scalar, normal: Point3, wo: Point3, wi: Point3, cos_n_i: Scalar, masking: Scalar) -> (r: Scattering)
    ensures
        forall|rules: ArithRules| #[trigger] rules.describe(*math) ==> r == rules.lobes(albedo, metallic, f0, a2, p_s, normal, wo, wi, cos_n_i, masking),
{
    let h = unit(math, plus(math, wo, wi));
    let cos_n_h = dot(math, normal, h).max(Scalar::zero());
    let cos_h_o = dot(math, h, wo).max(Scalar::zero());
    let f = schlick(math, f0, cos_h_o);
    let d = ggx_d(math, cos_n_h, a2);
    Scattering {
        f: scattering(math, albedo, metallic, f, math.product(d, masking)),
        pdf: mixture_pdf(
            math,
            p_s,
            d,
            cos_n_h,
            cos_h_o,
            math.quotient(math.product(math.difference(Scalar::one(), p_s), cos_n_i), Scalar { key: PI_KEY }),
        ),
    }
}

/// Scattering and density of a Lambertian surface.
fn lambertian<M: Arith>(math: &M, albedo: Color, normal: Point3, wi: Point3) -> (r: Scattering)
    ensures
        forall|rules: ArithRules| #[trigger] rules.describe(*math) ==> r == rules.lambertian(albedo, normal, wi),
{
    Scattering {
        f: shrunk(math, albedo, Scalar { key: PI_KEY }),
        pdf: math.quotient(dot(math, normal, wi).max(Scalar::zero()), Scalar { key: PI_KEY }),
    }
}

/// Scattering and density, from the terms shared by all `wi`.
fn brdf_with_precomp<M: Arith>(math: &M, brdf: Brdf, normal: Point3, wo: Point3, wi: Point3, pre: BrdfPrecomputed) -> (r: Scattering)
    ensures
        forall|rules: ArithRules| #[trigger] rules.describe(*math) ==> r == rules.brdf_with_precomp(brdf, normal, wo, wi, pre),
{
    match brdf {
        Brdf::Lambertian { albedo } => lambertian(math, albedo, normal, wi),
        Brdf::CookTorrance { albedo, metallic, .. } => {
            let cos_n_i = dot(math, normal, wi);
            if cos_n_i.le(Scalar::zero()) {
                Scattering { f: black(), pdf: Scalar::zero() }
            } else {
                let denom_i = math.sum(
                    cos_n_i,
                    math.root(math.fused(math.product(pre.one_minus_a2, cos_n_i), cos_n_i, pre.a2)),
                );
                let masking = math.quotient(Scalar::one(), math.product(pre.denom_o, denom_i));
                lobes(math, albedo, metallic, pre.f0, pre.a2, pre.p_s, normal, wo, wi, cos_n_i, masking)
            }
        },
    }
}

/// Scattering and density in one pass.
fn brdf_eval_and_pdf<M: Arith>(math: &M, brdf: Brdf, normal: Point3, wo: Point3, wi: Point3) -> (r: Scattering)
    ensures
        forall|rules: ArithRules| #[trigger] rules.describe(*math) ==> r == rules.brdf_eval_and_pdf(brdf, normal, wo, wi),
{
    match brdf {
        Brdf::Lambertian { albedo } => lambertian(math, albedo, normal, wi),
        Brdf::CookTorrance { albedo, metallic, roughness } => {
            let cos_n_i = dot(math, normal, wi);
            let cos_n_o = dot(math, normal, wo);
            if cos_n_i.le(Scalar::zero()) || cos_n_o.le(Scalar::zero()) {
                Scattering { f: black(), pdf: Scalar::zero() }
            } else {
                let a2 = squared_alpha(math, roughness);
                let f0 = base_reflectance(math, albedo, metallic);
                let masking = smith_g2_over_denom4(math, cos_n_o, cos_n_i, a2);
                lobes(math, albedo, metallic, f0, a2, spec_prob(math, f0), normal, wo, wi, cos_n_i, masking)
            }
        },
    }
}

/// The direction that three uniform numbers pick: the first the lobe, the other
/// two a direction in it. None if the microfacet is seen from behind or reflects
/// below the surface.
fn lobe_direction<M: Arith>(math: &M, normal: Point3, wo: Point3, p_spec: Scalar, a2: Scalar, u0: Scalar, u1: Scalar, u2: Scalar) -> (r: Option<Point3>)
    ensures
        forall|rules: ArithRules| #[trigger] rules.describe(*math) ==> r == rules.lobe_direction(normal, wo, p_spec, a2, u0, u1, u2),
{
    if u0.lt(p_spec) {
        let h = sample_ggx(math, normal, a2, u1, u2);
        let cos_h_o = dot(math, h, wo);
        if cos_h_o.le(Scalar::zero()) {
            None
        } else {
            let wi = mirrored(math, wo, h, cos_h_o);
            if dot(math, normal, wi).le(Scalar::zero()) {
                None
            } else {
                Some(unit(math, wi))
            }
        }
    } else {
        Some(sample_cosine_hemisphere(math, normal, u1, u2).wi)
    }
}

/// The sample of a Lambertian surface that two uniform numbers pick.
fn lambertian_sample<M: Arith>(math: &M, albedo: Color, normal: Point3, u1: Scalar, u2: Scalar) -> (r: Option<BrdfSample>)
    ensures
        r matches Some(s) ==> !s.pdf.le(Scalar::zero()),
        forall|rules: ArithRules| #[trigger] rules.describe(*math) ==> r == rules.lambertian_sample(albedo, normal, u1, u2),
{
    let s = sample_cosine_hemisphere(math, normal, u1, u2);
    if s.pdf.le(Scalar::zero()) {
        None
    } else {
        Some(BrdfSample { wi: s.wi, f: shrunk(math, albedo, Scalar { key: PI_KEY }), pdf: s.pdf })
    }
}

/// The sample of a Cook-Torrance surface that three uniform numbers pick.
fn cook_torrance_sample<M: Arith>(math: &M, albedo: Color, metallic: Scalar, roughness: Scalar, normal: Point3, wo: Point3, u0: Scalar, u1: Scalar, u2: Scalar) -> (r: Option<BrdfSample>)
    ensures
        r matches Some(s) ==> !s.pdf.le(Scalar::zero()),
        forall|rules: ArithRules| #[trigger] rules.describe(*math) ==> r == rules.cook_torrance_sample(albedo, metallic, roughness, normal, wo, u0, u1, u2),
{
    let a2 = squared_alpha(math, roughness);
    let p_spec = spec_prob(math, base_reflectance(math, albedo, metallic));
    match lobe_direction(math, normal, wo, p_spec, a2, u0, u1, u2) {
        None => None,
        Some(wi) => {
            let s = brdf_eval_and_pdf(math, Brdf::CookTorrance { albedo, metallic, roughness }, normal, wo, wi);
            if s.pdf.le(Scalar::zero()) {
                None
            } else {
                Some(BrdfSample { wi, f: s.f, pdf: s.pdf })
            }
        },
    }
}

impl ArithRules {
    /// The sample that a random stream picks: two draws for a Lambertian surface,
    /// three for the other.
    pub open spec fn brdf_sample(self, brdf: Brdf, normal: Point3, wo: Point3, rng: Stream) -> Option<BrdfSample> {
        match brdf {
            Brdf::Lambertian { albedo } => self.lambertian_sample(albedo, normal, rng.value(), rng.next().value()),
            Brdf::CookTorrance { albedo, metallic, roughness } => self.cook_torrance_sample(
                albedo,
                metallic,
                roughness,
                normal,
                wo,
                rng.value(),
                rng.next().value(),
                rng.next().next().value(),
            ),
        }
    }
}

impl Brdf {
    /// The random stream after a sample was drawn from it.
    pub open spec fn rng_after(self, rng: Stream) -> Stream {
        match self {
            Brdf::Lambertian { .. } => rng.next().next(),
            Brdf::CookTorrance { .. } => rng.next().next().next(),
        }
    }

    /// f_r(wo, wi). The integrator applies the cosine term and visibility separately.
    pub fn eval<M: Arith>(&self, math: &M, normal: Point3, wo: Point3, wi: Point3) -> (r: Color)
        ensures
            forall|rules: ArithRules| #[trigger] rules.describe(*math) ==> r == rules.brdf_eval(*self, normal, wo, wi),
    {
        brdf_eval(math, *self, normal, wo, wi)
    }

    /// Solid-angle density of sampling `wi` from this BRDF given `wo`.
    pub fn pdf<M: Arith>(&self, math: &M, normal: Point3, wo: Point3, wi: Point3) -> (r: Scalar)
        ensures
            forall|rules: ArithRules| #[trigger] rules.describe(*math) ==> r == rules.brdf_pdf(*self, normal, wo, wi),
    {
        brdf_pdf(math, *self, normal, wo, wi)
    }

    /// Precompute the terms shared by all `wi`. Returns `None` for Lambertian
    /// surfaces and when the surface faces away from `wo`.
    pub fn precompute<M: Arith>(&self, math: &M, normal: Point3, wo: Point3) -> (r: Option<BrdfPrecomputed>)
        ensures
            forall|rules: ArithRules| #[trigger] rules.describe(*math) ==> r == rules.brdf_precompute(*self, normal, wo),
    {
        brdf_precompute(math, *self, normal, wo)
    }

    /// Scattering and density using precomputed terms.
    pub fn eval_and_pdf_with_precomp<M: Arith>(&self, math: &M, normal: Point3, wo: Point3, wi: Point3, pre: BrdfPrecomputed) -> (r: Scattering)
        ensures
            forall|rules: ArithRules| #[trigger] rules.describe(*math) ==> r == rules.brdf_with_precomp(*self, normal, wo, wi, pre),
    {
        brdf_with_precomp(math, *self, normal, wo, wi, pre)
    }

    /// Scattering using precomputed terms.
    pub fn eval_with_precomp<M: Arith>(
        &self,
        math: &M,
        normal: Point3,
        wo: Point3,
        wi: Point3,
        pre: BrdfPrecomputed,
    ) -> (r: Color)
        ensures
            forall|rules: ArithRules| #[trigger]
                rules.describe(*math) ==> r == rules.brdf_with_precomp(*self, normal, wo, wi, pre).f,
    {
        brdf_with_precomp(math, *self, normal, wo, wi, pre).f
    }

    /// Combined scattering and density in one pass.
    pub fn eval_and_pdf<M: Arith>(&self, math: &M, normal: Point3, wo: Point3, wi: Point3) -> (r: Scattering)
        ensures
            forall|rules: ArithRules| #[trigger] rules.describe(*math) ==> r == rules.brdf_eval_and_pdf(*self, normal, wo, wi),
    {
        brdf_eval_and_pdf(math, *self, normal, wo, wi)
    }

    /// Importance-sample an incident direction. Returns `None` if degenerate.
    pub fn sample<M: Arith>(&self, math: &M, normal: Point3, wo: Point3, rng: &mut Pcg32) -> (r: Option<BrdfSample>)
        ensures
            final(rng)@ == self.rng_after(old(rng)@),
            r matches Some(s) ==> !s.pdf.le(Scalar::zero()),
            forall|rules: ArithRules| #[trigger]
                rules.describe(*math) ==> r == rules.brdf_sample(*self, normal, wo, old(rng)@),
    {
        match *self {
            Brdf::Lambertian { albedo } => {
                let u1 = rng.next_f32();
                let u2 = rng.next_f32();
                lambertian_sample(math, albedo, normal, u1, u2)
            },
            Brdf::CookTorrance { albedo, metallic, roughness } => {
                let u0 = rng.next_f32();
                let u1 = rng.next_f32();
                let u2 = rng.next_f32();
                cook_torrance_sample(math, albedo, metallic, roughness, normal, wo, u0, u1, u2)
            },
        }
    }
}

/// Evaluating scattering alone gives what evaluating it with the density gives.
pub proof fn law_one_pass_scatters_alike(rules: ArithRules, brdf: Brdf, normal: Point3, wo: Point3, wi: Point3)
    ensures
        rules.brdf_eval(brdf, normal, wo, wi) == rules.brdf_eval_and_pdf(brdf, normal, wo, wi).f,
{
}

/// Evaluating the density alone gives what evaluating it with scattering gives, for
/// directions `wo` above the surface, wherever the share of the diffuse lobe may be
/// taken before or after its density is divided.
pub proof fn law_one_pass_has_the_density(rules: ArithRules, brdf: Brdf, normal: Point3, wo: Point3, wi: Point3)
    requires
        !rules.dot(normal, wo).le(Scalar::zero()),
        brdf matches Brdf::CookTorrance { albedo, metallic, roughness } ==> {
            let share = rules.difference(Scalar::one(), rules.spec_prob(rules.base_reflectance(albedo, metallic)));
            let cos_n_i = rules.dot(normal, wi);
            let pi = Scalar { key: PI_KEY };
            rules.product(share, rules.quotient(cos_n_i, pi)) == rules.quotient(rules.product(share, cos_n_i), pi)
        },
    ensures
        rules.brdf_pdf(brdf, normal, wo, wi) == rules.brdf_eval_and_pdf(brdf, normal, wo, wi).pdf,
{
}

/// What is sampled is scattered, and with the density it says: a sample agrees
/// with an evaluation in its direction. On a Lambertian surface that asks that the
/// direction stands as high above the surface as it was drawn.
pub proof fn law_sample_agrees_with_evaluation(
    rules: ArithRules,
    brdf: Brdf,
    normal: Point3,
    wo: Point3,
    rng: Stream,
)
    requires
        brdf is Lambertian ==> {
            let s = rules.sample_cosine_hemisphere(normal, rng.value(), rng.next().value());
            rules.quotient(rules.dot(normal, s.wi).max(Scalar::zero()), Scalar { key: PI_KEY }) == s.pdf
        },
    ensures
        rules.brdf_sample(brdf, normal, wo, rng) matches Some(s) ==> rules.brdf_eval_and_pdf(brdf, normal, wo, s.wi) == (
        Scattering { f: s.f, pdf: s.pdf }),
{
}

/// Where terms can be precomputed, using them changes neither scattering nor density.
pub proof fn law_precomputing_changes_nothing(
    rules: ArithRules,
    brdf: Brdf,
    normal: Point3,
    wo: Point3,
    wi: Point3,
    pre: BrdfPrecomputed,
)
    requires
        rules.brdf_precompute(brdf, normal, wo) == Some(pre),
    ensures
        rules.brdf_with_precomp(brdf, normal, wo, wi, pre) == rules.brdf_eval_and_pdf(brdf, normal, wo, wi),
        rules.brdf_with_precomp(brdf, normal, wo, wi, pre).f == rules.brdf_eval(brdf, normal, wo, wi),
{
}

/// Nothing is scattered below a Cook-Torrance surface, and nothing is sampled there.
pub proof fn law_nothing_below_the_surface(
    rules: ArithRules,
    albedo: Color,
    metallic: Scalar,
    roughness: Scalar,
    normal: Point3,
    wo: Point3,
    wi: Point3,
)
    requires
        rules.dot(normal, wi).le(Scalar::zero()),
    ensures
        rules.brdf_eval(Brdf::CookTorrance { albedo, metallic, roughness }, normal, wo, wi) == black(),
        rules.brdf_pdf(Brdf::CookTorrance { albedo, metallic, roughness }, normal, wo, wi) == Scalar::zero(),
{
}

/// A sampled direction was made unit length.
pub proof fn law_sampled_direction_is_unit(rules: ArithRules, brdf: Brdf, normal: Point3, wo: Point3, rng: Stream)
    ensures
        rules.brdf_sample(brdf, normal, wo, rng) matches Some(s) ==> exists|v: Point3| s.wi == #[trigger] rules.unit(v),
{
}

/// What is asked of an arithmetic for densities not to be negative: squares, and
/// sums, products and quotients of what is not negative, are not negative, nor is
/// what a number up to one leaves of one. Rounding to the nearest number does all
/// this.
pub open spec fn keeps_sign(rules: ArithRules) -> bool {
    &&& forall|a: Scalar, b: Scalar|
        !a.lt(Scalar::zero()) && !b.lt(Scalar::zero()) ==> !(#[trigger] rules.sum(a, b)).lt(Scalar::zero())
    &&& forall|a: Scalar, b: Scalar|
        !a.lt(Scalar::zero()) && !b.lt(Scalar::zero()) ==> !(#[trigger] rules.product(a, b)).lt(Scalar::zero())
    &&& forall|a: Scalar, b: Scalar|
        !a.lt(Scalar::zero()) && !b.lt(Scalar::zero()) ==> !(#[trigger] rules.quotient(a, b)).lt(Scalar::zero())
    &&& forall|a: Scalar, b: Scalar|
        !a.lt(Scalar::zero()) ==> !(#[trigger] rules.product(rules.product(a, b), b)).lt(Scalar::zero())
    &&& forall|a: Scalar|
        !Scalar::one().lt(a) ==> !(#[trigger] rules.difference(Scalar::one(), a)).lt(Scalar::zero())
}

/// A density is never negative.
pub proof fn law_density_is_not_negative(rules: ArithRules, brdf: Brdf, normal: Point3, wo: Point3, wi: Point3)
    requires
        keeps_sign(rules),
    ensures
        !rules.brdf_pdf(brdf, normal, wo, wi).lt(Scalar::zero()),
        !rules.brdf_eval_and_pdf(brdf, normal, wo, wi).pdf.lt(Scalar::zero()),
{
    if let Brdf::CookTorrance { albedo, metallic, roughness } = brdf {
        let h = rules.unit(rules.plus(wo, wi));
        let cos_n_h = rules.dot(normal, h).max(Scalar::zero());
        let a2 = rules.squared_alpha(roughness);
        assert(!a2.lt(Scalar::zero()));
        assert(!rules.ggx_d(cos_n_h, a2).lt(Scalar::zero()));
        let p_spec = rules.spec_prob(rules.base_reflectance(albedo, metallic));
        assert(!p_spec.lt(Scalar::zero()) && !Scalar::one().lt(p_spec));
        assert(!rules.difference(Scalar::one(), p_spec).lt(Scalar::zero()));
    }
}

/// The density below a surface is zero, wherever dividing zero gives zero.
pub proof fn law_no_density_below_the_surface(rules: ArithRules, brdf: Brdf, normal: Point3, wo: Point3, wi: Point3)
    requires
        rules.dot(normal, wi).le(Scalar::zero()),
        rules.quotient(Scalar::zero(), Scalar { key: PI_KEY }) == Scalar::zero(),
    ensures
        rules.brdf_pdf(brdf, normal, wo, wi) == Scalar::zero(),
        rules.brdf_eval_and_pdf(brdf, normal, wo, wi).pdf == Scalar::zero(),
{
}

/// A sample of a Lambertian surface weighs its albedo, wherever the direction
/// stands as high above the surface as it was drawn, and dividing this height and
/// the albedo by pi can be undone.
pub proof fn law_lambertian_sample_weighs_albedo(rules: ArithRules, albedo: Color, normal: Point3, wo: Point3, rng: Stream)
    requires
        rules.scaled(rules.shrunk(albedo, Scalar { key: PI_KEY }), Scalar { key: PI_KEY }) == albedo,
        rules.brdf_sample(Brdf::Lambertian { albedo }, normal, wo, rng) matches Some(s) ==> {
            let height = rules.dot(normal, s.wi);
            let density = rules.quotient(height, Scalar { key: PI_KEY });
            s.pdf == density && rules.quotient(height, density) == (Scalar { key: PI_KEY })
        },
    ensures
        rules.brdf_sample(Brdf::Lambertian { albedo }, normal, wo, rng) matches Some(s) ==> rules.scaled(
            s.f,
            rules.quotient(rules.dot(normal, s.wi), s.pdf),
        ) == albedo,
{
}

/// A surface that is no metal reflects a little of every color straight on, a metal
/// its own color.
pub proof fn law_metals_reflect_their_color(rules: ArithRules, albedo: Color)
    requires
        rules.keeps_ones(),
        rules.keeps_zeros(),
        rules.keeps_selves(),
        albedo.is_finite(),
    ensures
        ({
            let d = Scalar { key: DIELECTRIC_KEY };
            rules.base_reflectance(albedo, Scalar::zero()) == (Color { x: d, y: d, z: d })
        }),
        rules.base_reflectance(albedo, Scalar::one()) == albedo,
{
    assert(rules.difference(Scalar::one(), Scalar::zero()) == Scalar::one());
    assert(rules.difference(Scalar::one(), Scalar::one()) == Scalar::zero());
}

/// What a surface reflects at its facets it does not scatter below them: a metal
/// scatters nothing, and a surface without specular light scatters what the facets
/// leave of its color, over pi.
pub proof fn law_reflected_light_is_not_scattered(
    rules: ArithRules,
    albedo: Color,
    metallic: Scalar,
    f: Color,
    specular: Scalar,
)
    requires
        rules.keeps_ones(),
        rules.keeps_zeros(),
        rules.keeps_selves(),
        albedo.is_finite(),
        f.is_finite(),
        rules.minus(white(), f).is_finite(),
        rules.scaled(f, specular).ordered(),
        rules.shrunk(rules.times(rules.minus(white(), f), albedo), Scalar { key: PI_KEY }).ordered(),
    ensures
        rules.scattering(albedo, Scalar::one(), f, specular) == rules.scaled(f, specular),
        rules.scattering(albedo, Scalar::zero(), f, Scalar::zero()) == rules.shrunk(
            rules.times(rules.minus(white(), f), albedo),
            Scalar { key: PI_KEY },
        ),
        f == white() ==> rules.scattering(albedo, Scalar::zero(), f, specular) == rules.scaled(white(), specular),
{
    assert(rules.difference(Scalar::one(), Scalar::one()) == Scalar::zero());
    assert(rules.difference(Scalar::one(), Scalar::zero()) == Scalar::one());
    let rest = rules.minus(white(), f);
    assert(rules.scaled(rest, Scalar::zero()) == black());
    assert(rules.scaled(rest, Scalar::one()) == rest);
    assert(rules.times(black(), albedo) == black());
    assert(rules.shrunk(black(), Scalar { key: PI_KEY }) == black());
    assert(rules.scaled(f, Scalar::zero()) == black());
}

/// Light goes both ways alike: a surface scatters as much from one direction to the
/// other as back, wherever the halfway vector stands between both.
pub proof fn law_scattering_goes_both_ways(rules: ArithRules, brdf: Brdf, normal: Point3, wo: Point3, wi: Point3)
    requires
        rules.commutes(),
        wo.is_finite(),
        wi.is_finite(),
        rules.dot(rules.unit(rules.plus(wo, wi)), wo) == rules.dot(rules.unit(rules.plus(wo, wi)), wi),
        brdf matches Brdf::CookTorrance { albedo, metallic, roughness } ==> {
            let a2 = rules.squared_alpha(roughness);
            &&& rules.smith_denominator(rules.dot(normal, wo), a2).is_finite()
            &&& rules.smith_denominator(rules.dot(normal, wi), a2).is_finite()
        },
    ensures
        rules.brdf_eval(brdf, normal, wo, wi) == rules.brdf_eval(brdf, normal, wi, wo),
{
    assert(rules.plus(wo, wi) == rules.plus(wi, wo));
}

/// An even surface scatters its color evenly: times pi, what it scatters is its
/// color, whatever the directions.
pub proof fn law_lambertian_scatters_evenly(
    rules: ArithRules,
    albedo: Color,
    normal: Point3,
    wo: Point3,
    wi: Point3,
    other: Point3,
)
    requires
        rules.scaled(rules.shrunk(albedo, Scalar { key: PI_KEY }), Scalar { key: PI_KEY }) == albedo,
    ensures
        rules.scaled(rules.brdf_eval(Brdf::Lambertian { albedo }, normal, wo, wi), Scalar { key: PI_KEY }) == albedo,
        rules.brdf_eval(Brdf::Lambertian { albedo }, normal, wo, wi) == rules.brdf_eval(
            Brdf::Lambertian { albedo },
            normal,
            other,
            wo,
        ),
{
}

/// The density of a Lambertian surface, times pi, is the cosine above it.
pub proof fn law_lambertian_density_is_the_cosine(rules: ArithRules, albedo: Color, normal: Point3, wo: Point3, wi: Point3)
    requires
        Scalar::zero().le(rules.dot(normal, wi)),
        rules.product(rules.quotient(rules.dot(normal, wi), Scalar { key: PI_KEY }), Scalar { key: PI_KEY }) == rules.dot(
            normal,
            wi,
        ),
    ensures
        rules.product(rules.brdf_pdf(Brdf::Lambertian { albedo }, normal, wo, wi), Scalar { key: PI_KEY }) == rules.dot(
            normal,
            wi,
        ),
{
}

/// Rougher surfaces have wider facets, none is quite smooth, and a roughness of one
/// is a width of one.
pub proof fn law_width_grows_with_roughness(rules: ArithRules, smooth: Scalar, rough: Scalar)
    requires
        rules.keeps_ones(),
        rules.orders_products(),
        Scalar::zero().le(smooth) && smooth.le(rough) && rough.is_finite(),
        rules.product(smooth, smooth).is_finite(),
        rules.product(smooth, rough).is_finite(),
        rules.product(rough, rough).is_finite(),
        ({
            let least = Scalar { key: MIN_ALPHA_KEY };
            let a = rules.product(smooth, smooth).max(least);
            let b = rules.product(rough, rough).max(least);
            rules.product(a, b).is_finite() && rules.product(least, a).is_finite()
        }),
    ensures
        rules.squared_alpha(smooth).le(rules.squared_alpha(rough)),
        rules.product(Scalar { key: MIN_ALPHA_KEY }, Scalar { key: MIN_ALPHA_KEY }).le(rules.squared_alpha(smooth)),
        rules.squared_alpha(Scalar::one()) == Scalar::one(),
{
    let least = Scalar { key: MIN_ALPHA_KEY };
    assert(rules.product(smooth, smooth).le(rules.product(smooth, rough)));
    assert(rules.product(smooth, rough).le(rules.product(rough, rough)));
    let a = rules.product(smooth, smooth).max(least);
    let b = rules.product(rough, rough).max(least);
    assert(a.le(b) && least.le(a));
    assert(rules.product(a, a).le(rules.product(a, b)));
    assert(rules.product(a, b).le(rules.product(b, b)));
    assert(rules.product(least, least).le(rules.product(least, a)));
    assert(rules.product(least, a).le(rules.product(a, a)));
    assert(rules.product(Scalar::one(), Scalar::one()) == Scalar::one());
}

/// Scattering and density of a Cook-Torrance surface are made of the terms of its
/// halfway vector: the specular part, less the diffuse one, is the Fresnel term times
/// facets and masking; the density is the mixture of both lobes by the share of the
/// specular one, whose own density, times four cosines, is that of the facets.
pub proof fn law_cook_torrance_mixes_its_lobes(
    rules: ArithRules,
    albedo: Color,
    metallic: Scalar,
    roughness: Scalar,
    normal: Point3,
    wo: Point3,
    wi: Point3,
)
    requires
        Scalar::zero().lt(rules.dot(normal, wi)),
        Scalar::zero().lt(rules.dot(normal, wo)),
        ({
            let h = rules.unit(rules.plus(wo, wi));
            let facing = rules.product(Scalar { key: FOUR_KEY }, rules.dot(h, wo));
            let facets = rules.product(
                rules.ggx_d(rules.dot(normal, h), rules.squared_alpha(roughness)),
                rules.dot(normal, h),
            );
            &&& Scalar::zero().le(rules.dot(normal, h))
            &&& (Scalar { key: MIN_COSINE_KEY }).lt(rules.dot(h, wo))
            &&& rules.product(rules.quotient(facets, facing), facing) == facets
        }),
    ensures
        ({
            let brdf = Brdf::CookTorrance { albedo, metallic, roughness };
            let h = rules.unit(rules.plus(wo, wi));
            let a2 = rules.squared_alpha(roughness);
            let f0 = rules.base_reflectance(albedo, metallic);
            let facets = rules.product(rules.ggx_d(rules.dot(normal, h), a2), rules.dot(normal, h));
            let share = rules.spec_prob(f0);
            &&& rules.brdf_eval(brdf, normal, wo, wi) == rules.scattering(
                albedo,
                metallic,
                rules.schlick(f0, rules.dot(h, wo)),
                rules.product(
                    rules.ggx_d(rules.dot(normal, h), a2),
                    rules.smith_g2_over_denom4(rules.dot(normal, wo), rules.dot(normal, wi), a2),
                ),
            )
            &&& exists|specular: Scalar|
                rules.product(specular, rules.product(Scalar { key: FOUR_KEY }, rules.dot(h, wo))) == facets
                    && rules.brdf_pdf(brdf, normal, wo, wi) == rules.sum(
                    #[trigger] rules.product(share, specular),
                    rules.product(
                        rules.difference(Scalar::one(), share),
                        rules.quotient(rules.dot(normal, wi), Scalar { key: PI_KEY }),
                    ),
                )
        }),
{
    let h = rules.unit(rules.plus(wo, wi));
    let a2 = rules.squared_alpha(roughness);
    let facets = rules.product(rules.ggx_d(rules.dot(normal, h), a2), rules.dot(normal, h));
    let specular = rules.quotient(facets, rules.product(Scalar { key: FOUR_KEY }, rules.dot(h, wo)));
    let share = rules.spec_prob(rules.base_reflectance(albedo, metallic));
    assert(rules.dot(normal, h).max(Scalar::zero()) == rules.dot(normal, h));
    assert(rules.dot(h, wo).max(Scalar::zero()) == rules.dot(h, wo));
    assert(rules.brdf_pdf(Brdf::CookTorrance { albedo, metallic, roughness }, normal, wo, wi) == rules.sum(
        rules.product(share, specular),
        rules.product(
            rules.difference(Scalar::one(), share),
            rules.quotient(rules.dot(normal, wi), Scalar { key: PI_KEY }),
        ),
    ));
}

/// The first number picks the lobe: below the share of the specular one, a direction
/// is mirrored at a sampled facet, otherwise it is spread by the cosine.
pub proof fn law_first_number_picks_the_lobe(
    rules: ArithRules,
    normal: Point3,
    wo: Point3,
    p_spec: Scalar,
    a2: Scalar,
    u0: Scalar,
    u1: Scalar,
    u2: Scalar,
)
    requires
        ({
            let h = rules.sample_ggx(normal, a2, u1, u2);
            let along = rules.scaled(h, rules.product(Scalar { key: TWO_KEY }, rules.dot(h, wo)));
            rules.plus(rules.minus(along, wo), wo) == along
        }),
    ensures
        !u0.lt(p_spec) ==> rules.lobe_direction(normal, wo, p_spec, a2, u0, u1, u2) == Some(
            rules.sample_cosine_hemisphere(normal, u1, u2).wi,
        ),
        u0.lt(p_spec) ==> (rules.lobe_direction(normal, wo, p_spec, a2, u0, u1, u2) matches Some(wi) ==> exists|m: Point3|
            wi == #[trigger] rules.unit(m) && !rules.dot(normal, m).le(Scalar::zero()) && rules.plus(m, wo)
                == rules.scaled(
                rules.sample_ggx(normal, a2, u1, u2),
                rules.product(Scalar { key: TWO_KEY }, rules.dot(rules.sample_ggx(normal, a2, u1, u2), wo)),
            )),
{
    let h = rules.sample_ggx(normal, a2, u1, u2);
    let m = rules.mirrored(wo, h, rules.dot(h, wo));
    assert(rules.plus(m, wo) == rules.scaled(h, rules.product(Scalar { key: TWO_KEY }, rules.dot(h, wo))));
}

/// Every direction that is drawn with some density is sampled, and what is scattered
/// there is what evaluating the direction gives; a drawn facet that faces the viewer
/// and mirrors above the surface gives a direction.
pub proof fn law_directions_with_density_are_sampled(
    rules: ArithRules,
    albedo: Color,
    metallic: Scalar,
    roughness: Scalar,
    normal: Point3,
    wo: Point3,
    u0: Scalar,
    u1: Scalar,
    u2: Scalar,
)
    ensures
        Scalar::zero().lt(rules.sample_cosine_hemisphere(normal, u1, u2).pdf) ==> {
            &&& rules.lambertian_sample(albedo, normal, u1, u2) matches Some(s)
            &&& s.wi == rules.sample_cosine_hemisphere(normal, u1, u2).wi
            &&& s.pdf == rules.sample_cosine_hemisphere(normal, u1, u2).pdf
        },
        ({
            let p_spec = rules.spec_prob(rules.base_reflectance(albedo, metallic));
            let a2 = rules.squared_alpha(roughness);
            rules.lobe_direction(normal, wo, p_spec, a2, u0, u1, u2) matches Some(wi) ==> {
                let s = rules.brdf_eval_and_pdf(Brdf::CookTorrance { albedo, metallic, roughness }, normal, wo, wi);
                Scalar::zero().lt(s.pdf) ==> rules.cook_torrance_sample(
                    albedo,
                    metallic,
                    roughness,
                    normal,
                    wo,
                    u0,
                    u1,
                    u2,
                ) == Some(BrdfSample { wi, f: s.f, pdf: s.pdf })
            }
        }),
        ({
            let p_spec = rules.spec_prob(rules.base_reflectance(albedo, metallic));
            let a2 = rules.squared_alpha(roughness);
            let h = rules.sample_ggx(normal, a2, u1, u2);
            let above = rules.dot(normal, rules.mirrored(wo, h, rules.dot(h, wo)));
            Scalar::zero().lt(rules.dot(h, wo)) && Scalar::zero().lt(above) ==> rules.lobe_direction(
                normal,
                wo,
                p_spec,
                a2,
                u0,
                u1,
                u2,
            ) is Some
        }),
{
}

/// What is sampled has some density: none is given where the density is nothing or
/// less, or the facet turns away.
pub proof fn law_sampled_directions_have_density(rules: ArithRules, brdf: Brdf, normal: Point3, wo: Point3, rng: Stream)
    ensures
        rules.brdf_sample(brdf, normal, wo, rng) matches Some(s) ==> !s.pdf.le(Scalar::zero()),
{
}

} // verus!
