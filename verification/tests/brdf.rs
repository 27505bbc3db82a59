//! Scattering at surfaces, with the arithmetic of the machine.
use rnpt::arith::{dot, plus, scaled, unit, Arith};
use rnpt::brdf::{squared_alpha, Brdf};
use rnpt::glass::{refract, sample_glass, Boundary};
use rnpt::microfacet::{fresnel_dielectric, frisvad_onb, smith_g1};
use rnpt::pcg32::Pcg32;
use rnpt::scalar::{Point3, Scalar};
use std::f32::consts::PI;

fn s(x: f32) -> Scalar {
    Scalar::from_bits(x.to_bits())
}

fn f(x: Scalar) -> f32 {
    f32::from_bits(x.to_bits())
}

fn point(p: [f32; 3]) -> Point3 {
    Point3 { x: s(p[0]), y: s(p[1]), z: s(p[2]) }
}

fn coords(p: Point3) -> [f32; 3] {
    [f(p.x), f(p.y), f(p.z)]
}

/// Single-precision arithmetic of the machine.
struct Machine;

impl Arith for Machine {
    fn sum(&self, a: Scalar, b: Scalar) -> Scalar {
        s(f(a) + f(b))
    }

    fn difference(&self, a: Scalar, b: Scalar) -> Scalar {
        s(f(a) - f(b))
    }

    fn product(&self, a: Scalar, b: Scalar) -> Scalar {
        s(f(a) * f(b))
    }

    fn quotient(&self, a: Scalar, b: Scalar) -> Scalar {
        s(f(a) / f(b))
    }

    fn fused(&self, a: Scalar, b: Scalar, c: Scalar) -> Scalar {
        s(f(a).mul_add(f(b), f(c)))
    }

    fn root(&self, a: Scalar) -> Scalar {
        s(f(a).sqrt())
    }

    fn sine(&self, a: Scalar) -> Scalar {
        s(f(a).sin())
    }

    fn cosine(&self, a: Scalar) -> Scalar {
        s(f(a).cos())
    }

    fn slope(&self, a: Scalar) -> Scalar {
        s(f(a).tan())
    }

    fn arc_cosine(&self, a: Scalar) -> Scalar {
        s(f(a).acos())
    }

    fn arc_tangent(&self, y: Scalar, x: Scalar) -> Scalar {
        s(f(y).atan2(f(x)))
    }

    fn power(&self, a: Scalar, b: Scalar) -> Scalar {
        s(f(a).powf(f(b)))
    }

    fn whole_power(&self, a: Scalar, n: i32) -> Scalar {
        s(f(a).powi(n))
    }

    fn wrapped(&self, a: Scalar, b: Scalar) -> Scalar {
        s(f(a).rem_euclid(f(b)))
    }

    fn floor(&self, a: Scalar) -> Scalar {
        s(f(a).floor())
    }

    fn exponential(&self, a: Scalar) -> Scalar {
        s(f(a).exp())
    }

    fn logarithm(&self, a: Scalar) -> Scalar {
        s(f(a).ln())
    }

    fn of_count(&self, n: usize) -> Scalar {
        s(n as f32)
    }

    fn to_count(&self, a: Scalar) -> usize {
        f(a) as usize
    }

    fn of_index(&self, n: i32) -> Scalar {
        s(n as f32)
    }

    fn to_index(&self, a: Scalar) -> i32 {
        f(a) as i32
    }

    fn to_natural(&self, a: Scalar) -> u32 {
        f(a) as u32
    }

    fn inner(&self, a: &Vec<Scalar>, b: &Vec<Scalar>) -> Scalar {
        s(a.iter().zip(b).map(|(x, y)| f(*x) * f(*y)).sum())
    }
}

fn wo_45deg() -> Point3 {
    unit(&Machine, point([0.5, 0.866, 0.0]))
}

fn normal_up() -> Point3 {
    point([0.0, 1.0, 0.0])
}

/// Uniformly samples the upper hemisphere around `normal`.
fn sample_uniform_hemisphere(normal: Point3, rng: &mut Pcg32) -> Point3 {
    let u1 = f(rng.next_f32());
    let u2 = f(rng.next_f32());
    let cos_theta = u1;
    let sin_theta = (1.0 - cos_theta * cos_theta).sqrt();
    let phi = 2.0 * PI * u2;
    let local = point([sin_theta * phi.cos(), sin_theta * phi.sin(), cos_theta]);
    let onb = frisvad_onb(&Machine, normal);
    let flat = plus(&Machine, scaled(&Machine, onb.tangent, local.x), scaled(&Machine, onb.bitangent, local.y));
    unit(&Machine, plus(&Machine, flat, scaled(&Machine, normal, local.z)))
}

/// MC estimate of ∫ f_r(wo,wi) cos_i dω_i.
/// Physical BRDFs must return ≤ 1 per channel (conservation) and > 0 (not black).
fn reflectance_estimate(brdf: &Brdf, n_samples: usize) -> [f32; 3] {
    let normal = normal_up();
    let wo = wo_45deg();
    let mut rng = Pcg32::from_seed_128(12345);
    let mut sum = [0.0f32; 3];
    for _ in 0..n_samples {
        if let Some(bs) = brdf.sample(&Machine, normal, wo, &mut rng) {
            if f(bs.pdf) > 0.0 {
                let cos_i = f(dot(&Machine, normal, bs.wi)).max(0.0);
                let w = cos_i / f(bs.pdf);
                let c = coords(bs.f);
                sum = [sum[0] + c[0] * w, sum[1] + c[1] * w, sum[2] + c[2] * w];
            }
        }
    }
    [sum[0] / n_samples as f32, sum[1] / n_samples as f32, sum[2] / n_samples as f32]
}

#[test]
fn lambertian_energy_conservation() {
    let albedo = point([0.8, 0.6, 0.4]);
    let brdf = Brdf::Lambertian { albedo };
    let r = reflectance_estimate(&brdf, 20_000);
    // Lambertian reflectance = albedo / π * π = albedo
    for (est, expected) in [(r[0], 0.8), (r[1], 0.6), (r[2], 0.4)] {
        assert!(est <= expected + 0.05, "exceeds albedo: {est} vs {expected}");
        assert!(est >= expected - 0.05, "below albedo: {est} vs {expected}");
    }
}

#[test]
fn cook_torrance_energy_conservation_diffuse() {
    // Purely diffuse (metallic=0, high roughness)
    let brdf = Brdf::CookTorrance { albedo: point([0.8, 0.8, 0.8]), metallic: s(0.0), roughness: s(1.0) };
    let r = reflectance_estimate(&brdf, 20_000);
    for ch in [r[0], r[1], r[2]] {
        assert!(ch <= 1.05, "energy not conserved: {ch}");
        assert!(ch >= 0.0, "negative reflectance: {ch}");
    }
}

#[test]
fn cook_torrance_energy_conservation_metallic() {
    // Fully metallic mirror-like
    let brdf = Brdf::CookTorrance { albedo: point([1.0, 0.8, 0.2]), metallic: s(1.0), roughness: s(0.1) };
    let r = reflectance_estimate(&brdf, 20_000);
    for ch in [r[0], r[1], r[2]] {
        assert!(ch <= 1.05, "energy not conserved: {ch}");
    }
}

/// ∫_Ω pdf(wi) dω ≈ 1.  Estimated via uniform hemisphere sampling:
/// E_uniform[pdf] × 2π ≈ 1.
fn pdf_integral(brdf: &Brdf, n_samples: usize) -> f32 {
    let normal = normal_up();
    let wo = wo_45deg();
    let mut rng = Pcg32::from_seed_128(99999);
    let mut sum = 0.0f32;
    for _ in 0..n_samples {
        let wi = sample_uniform_hemisphere(normal, &mut rng);
        sum += f(brdf.pdf(&Machine, normal, wo, wi));
    }
    sum / n_samples as f32 * 2.0 * PI // E[pdf] * hemisphere solid angle
}

#[test]
fn lambertian_pdf_normalizes() {
    let brdf = Brdf::Lambertian { albedo: point([0.5, 0.5, 0.5]) };
    let integral = pdf_integral(&brdf, 50_000);
    assert!((integral - 1.0).abs() < 0.03, "pdf integral: {integral}");
}

#[test]
fn cook_torrance_pdf_normalizes_rough() {
    let brdf = Brdf::CookTorrance { albedo: point([0.5, 0.5, 0.5]), metallic: s(0.0), roughness: s(0.8) };
    let integral = pdf_integral(&brdf, 50_000);
    assert!((integral - 1.0).abs() < 0.05, "pdf integral: {integral}");
}

#[test]
fn cook_torrance_pdf_normalizes_smooth() {
    // Very smooth surfaces concentrate the PDF near the specular lobe — harder to integrate
    // uniformly, so we use more samples and a wider tolerance.
    let brdf = Brdf::CookTorrance { albedo: point([0.5, 0.5, 0.5]), metallic: s(1.0), roughness: s(0.2) };
    let integral = pdf_integral(&brdf, 200_000);
    assert!((integral - 1.0).abs() < 0.1, "pdf integral: {integral}");
}

#[test]
fn eval_and_pdf_matches_separate_calls() {
    let brdf = Brdf::CookTorrance { albedo: point([0.6, 0.3, 0.9]), metallic: s(0.5), roughness: s(0.4) };
    let normal = normal_up();
    let wo = wo_45deg();
    let mut rng = Pcg32::from_seed_128(777);

    for _ in 0..100 {
        let wi = sample_uniform_hemisphere(normal, &mut rng);
        let combined = brdf.eval_and_pdf(&Machine, normal, wo, wi);
        let pdf_combined = f(combined.pdf);
        let f_sep = coords(brdf.eval(&Machine, normal, wo, wi));
        let pdf_sep = f(brdf.pdf(&Machine, normal, wo, wi));

        for (a, b) in coords(combined.f).into_iter().zip(f_sep) {
            assert!((a - b).abs() < 1e-5, "eval mismatch: {a} vs {b}");
        }
        assert!((pdf_combined - pdf_sep).abs() < 1e-5, "pdf mismatch: {pdf_combined} vs {pdf_sep}");
    }
}

#[test]
fn fresnel_at_normal_incidence() {
    // F(0°, ior) = ((ior-1)/(ior+1))²
    for ior in [1.33f32, 1.5, 2.0] {
        let r0 = ((ior - 1.0) / (ior + 1.0)).powi(2);
        let f = f(fresnel_dielectric(&Machine, s(1.0), s(ior)));
        assert!((f - r0).abs() < 1e-6, "ior={ior}: got {f}, expected {r0}");
    }
}

#[test]
fn fresnel_approaches_one_at_grazing() {
    // F(90°, any ior) → 1 (total internal reflection at grazing)
    for ior in [1.33f32, 1.5, 2.0] {
        let f = f(fresnel_dielectric(&Machine, s(0.0), s(ior)));
        assert!((f - 1.0).abs() < 1e-5, "ior={ior}: grazing Fresnel = {f}");
    }
}

#[test]
fn fresnel_monotone_in_angle() {
    // F should be non-decreasing as angle increases from 0 to 90°
    let ior = 1.5f32;
    let mut prev = f(fresnel_dielectric(&Machine, s(1.0), s(ior)));
    for i in 1..=20 {
        let cos_theta = 1.0 - i as f32 / 20.0;
        let f = f(fresnel_dielectric(&Machine, s(cos_theta), s(ior)));
        assert!(f >= prev - 1e-5, "Fresnel decreased: {f} < {prev}");
        prev = f;
    }
}

fn rough(metallic: f32, roughness: f32) -> Brdf {
    Brdf::CookTorrance { albedo: point([0.6, 0.3, 0.9]), metallic: s(metallic), roughness: s(roughness) }
}

#[test]
fn fresnel_meets_its_ends() {
    for ior in [1.0f32, 1.33, 1.5, 2.0, 8.0] {
        let r0 = ((ior - 1.0) / (ior + 1.0)).powi(2);
        assert_eq!(f(fresnel_dielectric(&Machine, s(1.0), s(ior))), r0);
        assert_eq!(f(fresnel_dielectric(&Machine, s(0.0), s(ior))), 1.0);
        let mut last = 1.0;
        for i in 1..=1000 {
            let now = f(fresnel_dielectric(&Machine, s(i as f32 / 1000.0), s(ior)));
            assert!(now <= last, "{now} > {last}");
            last = now;
        }
    }
}

#[test]
fn densities_are_not_negative_and_zero_below() {
    let (normal, wo) = (normal_up(), wo_45deg());
    let mut rng = Pcg32::from_seed_128(21);
    for brdf in [Brdf::Lambertian { albedo: point([0.5; 3]) }, rough(0.0, 0.0), rough(0.5, 0.4), rough(1.0, 1.0)] {
        for _ in 0..200 {
            let wi = sample_uniform_hemisphere(normal, &mut rng);
            assert!(f(brdf.pdf(&Machine, normal, wo, wi)) >= 0.0);
            assert!(f(brdf.eval_and_pdf(&Machine, normal, wo, wi).pdf) >= 0.0);
            let below = point([f(wi.x), -f(wi.y), f(wi.z)]);
            assert_eq!(f(brdf.pdf(&Machine, normal, wo, below)), 0.0);
            assert_eq!(f(brdf.eval_and_pdf(&Machine, normal, wo, below).pdf), 0.0);
        }
    }
}

#[test]
fn samples_are_unit_and_weigh_the_albedo() {
    let (normal, wo) = (normal_up(), wo_45deg());
    let mut rng = Pcg32::from_seed_128(22);
    for brdf in [Brdf::Lambertian { albedo: point([0.5; 3]) }, rough(0.5, 0.4)] {
        for _ in 0..200 {
            if let Some(b) = brdf.sample(&Machine, normal, wo, &mut rng) {
                assert!((f(dot(&Machine, b.wi, b.wi)) - 1.0).abs() < 1e-5);
                assert!(f(b.pdf) > 0.0);
                if let Brdf::Lambertian { .. } = brdf {
                    let w = f(b.f.x) * f(dot(&Machine, normal, b.wi)) / f(b.pdf);
                    assert!((w - 0.5).abs() < 1e-3, "{w}");
                }
            }
        }
    }
}

#[test]
fn precomputing_changes_nothing() {
    let (normal, wo) = (normal_up(), wo_45deg());
    let mut rng = Pcg32::from_seed_128(5);
    for _ in 0..50 {
        let wi = sample_uniform_hemisphere(normal, &mut rng);
        let brdf = rough(0.5, 0.4);
        let pre = brdf.precompute(&Machine, normal, wo).unwrap();
        let with = brdf.eval_and_pdf_with_precomp(&Machine, normal, wo, wi, pre);
        let without = brdf.eval_and_pdf(&Machine, normal, wo, wi);
        for (a, b) in coords(with.f).into_iter().zip(coords(without.f)) {
            assert!((a - b).abs() < 1e-4, "{a} vs {b}");
        }
        assert!((f(with.pdf) - f(without.pdf)).abs() < 1e-4);
        assert_eq!(coords(brdf.eval_with_precomp(&Machine, normal, wo, wi, pre)), coords(with.f));
    }
}

#[test]
fn nothing_scatters_below_the_surface() {
    let (normal, wo) = (normal_up(), wo_45deg());
    let below = point([0.0, -1.0, 0.0]);
    assert_eq!(coords(rough(0.0, 0.5).eval(&Machine, normal, wo, below)), [0.0; 3]);
    for brdf in [rough(0.0, 0.5), Brdf::Lambertian { albedo: point([0.5; 3]) }] {
        assert_eq!(f(brdf.pdf(&Machine, normal, wo, below)), 0.0);
    }
}

#[test]
fn diffuse_light_has_a_cosine_density() {
    let brdf = Brdf::Lambertian { albedo: point([1.0, 0.5, 0.25]) };
    let up = normal_up();
    assert_eq!(f(brdf.pdf(&Machine, up, up, up)), 1.0 / PI);
    let c = coords(brdf.eval(&Machine, up, up, up));
    assert!((c[0] - 1.0 / PI).abs() < 1e-6 && (c[1] - 0.5 / PI).abs() < 1e-6 && (c[2] - 0.25 / PI).abs() < 1e-6);
}

fn boundary(thick: bool, is_exit: bool, tint: [f32; 3]) -> Boundary {
    Boundary {
        n: normal_up(),
        wo: wo_45deg(),
        roughness: s(0.05),
        ior: s(1.5),
        tint: point(tint),
        is_exit,
        thick,
    }
}

#[test]
fn straight_light_is_not_bent() {
    let up = normal_up();
    let down = refract(&Machine, up, up, s(1.0 / 1.5)).unwrap();
    assert_eq!(coords(down), [0.0, -1.0, 0.0]);
}

#[test]
fn light_is_bent_by_the_law_of_sines() {
    let wo = wo_45deg();
    let wi = coords(refract(&Machine, wo, normal_up(), s(1.0 / 1.5)).unwrap());
    let sin_i = coords(wo)[0];
    assert!((wi[0] + sin_i / 1.5).abs() < 1e-5, "{}", wi[0]);
    assert!(wi[1] < 0.0);
}

#[test]
fn flat_light_cannot_leave_glass() {
    let grazing = unit(&Machine, point([1.0, 0.1, 0.0]));
    assert!(refract(&Machine, grazing, normal_up(), s(1.5)).is_none());
}

#[test]
fn reflection_is_not_tinted_and_stays_above() {
    let mut reflected = 0;
    for seed in 0..400u128 {
        let a = sample_glass(&Machine, boundary(true, false, [1.0; 3]), &mut Pcg32::from_seed_128(seed));
        let b = sample_glass(&Machine, boundary(true, false, [0.2, 0.4, 0.6]), &mut Pcg32::from_seed_128(seed));
        match (a, b) {
            (Some(a), Some(b)) => {
                assert_eq!(coords(a.wi), coords(b.wi));
                assert_eq!(a.is_reflect, b.is_reflect);
                let up = f(dot(&Machine, normal_up(), a.wi));
                if a.is_reflect {
                    reflected += 1;
                    assert_eq!(coords(a.weight), coords(b.weight));
                    assert!(up > 0.0);
                } else {
                    assert!(up < 0.0);
                    assert!((coords(a.weight)[0] * 0.2 - coords(b.weight)[0]).abs() < 1e-5);
                }
            }
            (None, None) => {}
            _ => panic!("the tint decides whether light goes on"),
        }
    }
    assert!(reflected > 5 && reflected < 100, "{reflected}");
}

#[test]
fn total_reflection_weighs_like_any_reflection() {
    let mut b = boundary(true, true, [0.2, 0.4, 0.6]);
    b.wo = unit(&Machine, point([1.0, 0.5, 0.0]));
    assert!(refract(&Machine, b.wo, b.n, b.ior).is_none());
    let a2 = squared_alpha(&Machine, b.roughness);
    let g1 = |c: Scalar| f(smith_g1(&Machine, c, a2));
    let mut reflected = 0;
    for seed in 0..200u128 {
        let Some(g) = sample_glass(&Machine, b, &mut Pcg32::from_seed_128(seed)) else { continue };
        if !g.is_reflect {
            continue;
        }
        reflected += 1;
        let (o, i) = (coords(b.wo), coords(g.wi));
        let h = unit(&Machine, point([o[0] + i[0], o[1] + i[1], o[2] + i[2]]));
        let up = |v| dot(&Machine, b.n, v);
        let wanted = g1(up(b.wo)) * g1(up(g.wi)) * f(dot(&Machine, h, b.wo)) / (f(up(b.wo)) * f(up(h)));
        for w in coords(g.weight) {
            assert!((w - wanted).abs() < 1e-3 * wanted, "{w} {wanted}");
        }
    }
    assert!(reflected > 150, "{reflected}");
}

#[test]
fn samples_agree_with_evaluation() {
    let surface = Brdf::CookTorrance { albedo: point([0.8, 0.5, 0.2]), metallic: s(0.3), roughness: s(0.4) };
    let dull = Brdf::Lambertian { albedo: point([0.8, 0.5, 0.2]) };
    let (n, wo) = (normal_up(), wo_45deg());
    let mut rng = Pcg32::from_seed_128(11);
    let mut drawn = 0;
    for _ in 0..200 {
        if let Some(a) = surface.sample(&Machine, n, wo, &mut rng) {
            let e = surface.eval_and_pdf(&Machine, n, wo, a.wi);
            assert_eq!((coords(a.f), f(a.pdf)), (coords(e.f), f(e.pdf)));
            let pdf = f(surface.pdf(&Machine, n, wo, a.wi));
            assert!((pdf - f(e.pdf)).abs() <= 1e-5 * pdf, "{pdf}");
            drawn += 1;
        }
        if let Some(a) = dull.sample(&Machine, n, wo, &mut rng) {
            let e = dull.eval_and_pdf(&Machine, n, wo, a.wi);
            assert_eq!(coords(a.f), coords(e.f));
            assert!((f(a.pdf) - f(e.pdf)).abs() < 1e-4);
        }
    }
    assert!(drawn > 100);
}

#[test]
fn thin_glass_lets_light_straight_through() {
    let mut through = 0;
    for seed in 0..100u128 {
        if let Some(g) = sample_glass(&Machine, boundary(false, false, [1.0; 3]), &mut Pcg32::from_seed_128(seed)) {
            if !g.is_reflect {
                through += 1;
                let d = f(dot(&Machine, g.wi, wo_45deg()));
                assert!(f(dot(&Machine, normal_up(), g.wi)) < 0.0);
                assert!(d < 0.0, "{d}");
            }
        }
    }
    assert!(through > 60);
}

#[test]
fn polished_surfaces_mirror() {
    let mut rng = Pcg32::from_seed_128(1);
    let s1 = rough(1.0, 0.0).sample(&Machine, normal_up(), wo_45deg(), &mut rng).unwrap();
    let wo = coords(wo_45deg());
    let wi = coords(s1.wi);
    assert!((wi[0] + wo[0]).abs() < 0.02 && (wi[1] - wo[1]).abs() < 0.02);
}
