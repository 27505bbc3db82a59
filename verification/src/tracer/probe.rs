//! A panorama of what the network infers around a point of the scene.
use vstd::prelude::*;
use crate::arith::{dot, Arith, ArithRules};
use crate::emitters::HALF_KEY;
use crate::light::PanoramaPoint;
use crate::material::evaluate_surface;
use crate::microfacet::{PI_KEY, TWO_PI_KEY};
use crate::nirc::encoding::encode_inputs;
use crate::nirc::mlp::{Net, NircMlp};
use crate::pcg32::{seeded_128, Pcg32};
use crate::scalar::{Point3, Scalar};
use crate::scene::{black, Color};
use crate::tracer::bounce::to_list;
use crate::tracer::config::{find_hit, PathTracerConfig, TraceRules};
use crate::tracer::path::PathTracer;

verus! {

/// The seed of the ray that a probe is placed with.
pub const PROBE_SEED: u128 = 42;

/// A place that is probed: where it is, and which way its surface faces.
#[derive(Clone, Copy, PartialEq, Eq, Structural, Debug)]
pub struct ProbePlace {
    pub pos: Point3,
    pub geo_normal: Point3,
}

impl ArithRules {
    /// The middle of a part of a whole that is divided evenly.
    pub open spec fn part_middle(self, i: usize, n: usize, whole: Scalar) -> Scalar {
        self.product(self.quotient(self.sum(self.of_count(i), Scalar { key: HALF_KEY }), self.of_count(n)), whole)
    }

    /// The direction of a pixel of a panorama.
    pub open spec fn probe_direction(self, col: usize, row: usize, w: usize, h: usize) -> Point3 {
        let phi = self.part_middle(col, w, Scalar { key: TWO_PI_KEY });
        let theta = self.part_middle(row, h, Scalar { key: PI_KEY });
        Point3 {
            x: self.product(self.sine(theta), self.cosine(phi)),
            y: self.cosine(theta),
            z: self.product(self.sine(theta), self.sine(phi)),
        }
    }

    /// What a network infers at a place from a direction: nothing from below the
    /// surface, and nothing negative.
    pub open spec fn probed(self, net: Net, place: ProbePlace, lo: Point3, hi: Point3, wi: Point3) -> Color {
        if self.dot(wi, place.geo_normal).le(Scalar::zero()) {
            black()
        } else {
            let out = self.forward(net, self.features(place.pos, wi, lo, hi));
            Point3 {
                x: out[0].max(Scalar::zero()),
                y: out[1].max(Scalar::zero()),
                z: out[2].max(Scalar::zero()),
            }
        }
    }

    /// A pixel of the panorama, row by row.
    pub open spec fn probe_pixel(
        self,
        net: Net,
        place: ProbePlace,
        lo: Point3,
        hi: Point3,
        w: usize,
        h: usize,
        i: int,
    ) -> Color {
        self.probed(
            net,
            place,
            lo,
            hi,
            self.probe_direction((i % (w as int)) as usize, (i / (w as int)) as usize, w, h),
        )
    }
}

impl TraceRules {
    /// The place that the ray through a pixel meets.
    pub open spec fn probe_place(self, cfg: PathTracerConfig, px: Scalar, py: Scalar) -> Option<ProbePlace> {
        let ray = self.arith.jittered_ray(cfg.camera, cfg.width, cfg.height, px, py, seeded_128(PROBE_SEED));
        match self.hit(*cfg.bvh, ray) {
            None => None,
            Some(hit) => {
                let surf = self.arith.surface(hit, ray, *cfg.bvh, *cfg.scene);
                Some(ProbePlace { pos: surf.position, geo_normal: surf.geo_normal })
            },
        }
    }
}

/// What a network infers at a place from the direction of a pixel.
fn probe_one<M: Arith>(
    math: &M,
    net: &NircMlp,
    place: ProbePlace,
    lo: Point3,
    hi: Point3,
    col: usize,
    row: usize,
    w: usize,
    h: usize,
) -> (r: Color)
    requires
        net@.valid(),
    ensures
        forall|rules: ArithRules| #[trigger]
            rules.describe(*math) ==> r == rules.probed(
                net@,
                place,
                lo,
                hi,
                rules.probe_direction(col, row, w, h),
            ),
{
    let phi = math.product(
        math.quotient(math.sum(math.of_count(col), Scalar { key: HALF_KEY }), math.of_count(w)),
        Scalar { key: TWO_PI_KEY },
    );
    let theta = math.product(
        math.quotient(math.sum(math.of_count(row), Scalar { key: HALF_KEY }), math.of_count(h)),
        Scalar { key: PI_KEY },
    );
    let wi = Point3 {
        x: math.product(math.sine(theta), math.cosine(phi)),
        y: math.cosine(theta),
        z: math.product(math.sine(theta), math.sine(phi)),
    };
    if dot(math, wi, place.geo_normal).le(Scalar::zero()) {
        return black();
    }
    let input = encode_inputs(math, &place.pos, &wi, &lo, &hi);
    let list = to_list(&input);
    let out = net.forward(math, &list);
    Point3 { x: out[0].max(Scalar::zero()), y: out[1].max(Scalar::zero()), z: out[2].max(Scalar::zero()) }
}

/// The panorama of what a network infers around a place.
pub fn render_probe<M: Arith>(
    math: &M,
    net: &NircMlp,
    place: ProbePlace,
    lo: Point3,
    hi: Point3,
    probe_w: usize,
    probe_h: usize,
) -> (r: Vec<Color>)
    requires
        net@.valid(),
        probe_w * probe_h <= usize::MAX,
    ensures
        r.len() == probe_w * probe_h,
        forall|rules: ArithRules, i: int|
            #![trigger rules.describe(*math), r@[i]]
            rules.describe(*math) && 0 <= i < r.len() ==> r@[i] == rules.probe_pixel(
                net@,
                place,
                lo,
                hi,
                probe_w,
                probe_h,
                i,
            ),
{
    let mut probe: Vec<Color> = Vec::new();
    let mut row: usize = 0;
    assert(0 * probe_w == 0);
    while row < probe_h
        invariant
            net@.valid(),
            row <= probe_h,
            probe.len() == row * probe_w,
            forall|rules: ArithRules, i: int|
                #![trigger rules.describe(*math), probe@[i]]
                rules.describe(*math) && 0 <= i < probe.len() ==> probe@[i] == rules.probe_pixel(
                    net@,
                    place,
                    lo,
                    hi,
                    probe_w,
                    probe_h,
                    i,
                ),
        decreases probe_h - row,
    {
        let mut col: usize = 0;
        while col < probe_w
            invariant
                net@.valid(),
                row < probe_h,
                col <= probe_w,
                probe.len() == row * probe_w + col,
                forall|rules: ArithRules, i: int|
                    #![trigger rules.describe(*math), probe@[i]]
                    rules.describe(*math) && 0 <= i < probe.len() ==> probe@[i] == rules.probe_pixel(
                        net@,
                        place,
                        lo,
                        hi,
                        probe_w,
                        probe_h,
                        i,
                    ),
            decreases probe_w - col,
        {
            proof {
                vstd::arithmetic::div_mod::lemma_fundamental_div_mod_converse(
                    row * probe_w + col,
                    probe_w as int,
                    row as int,
                    col as int,
                );
            }
            let c = probe_one(math, net, place, lo, hi, col, row, probe_w, probe_h);
            probe.push(c);
            col = col + 1;
        }
        assert((row + 1) * probe_w == row * probe_w + probe_w) by (nonlinear_arith);
        row = row + 1;
    }
    assert(probe_w * probe_h == probe_h * probe_w) by (nonlinear_arith);
    probe
}

impl PathTracer {
    /// The place that the ray through a pixel meets.
    pub fn find_probe_place<M: Arith>(&self, math: &M, px: Scalar, py: Scalar) -> (r: Option<
        ProbePlace,
    >)
        requires
            self.cfg().valid(),
        ensures
            forall|rules: TraceRules| #[trigger]
                rules.describe(*math) && self.sees_by(rules.arith) ==> r == rules.probe_place(
                    self.cfg(),
                    px,
                    py,
                ),
    {
        let cfg = self.config();
        let mut rng = Pcg32::from_seed_128(PROBE_SEED);
        let ray = self.generate_ray(math, &mut rng, px, py);
        proof {
            assert forall|rules: TraceRules| #[trigger]
                rules.describe(*math) && self.sees_by(rules.arith) implies ray == rules.arith.jittered_ray(
                cfg.camera,
                cfg.width,
                cfg.height,
                px,
                py,
                seeded_128(PROBE_SEED),
            ) by {
                assert(rules.arith.describe(*math));
            }
        }
        match find_hit(math, cfg, &ray) {
            None => None,
            Some(hit) => {
                let surf = evaluate_surface(math, &hit, &ray, &cfg.bvh, &cfg.scene);
                let place = ProbePlace { pos: surf.position, geo_normal: surf.geo_normal };
                proof {
                    assert forall|rules: TraceRules| #[trigger]
                        rules.describe(*math) && self.sees_by(rules.arith) implies Some(place)
                        == rules.probe_place(*cfg, px, py) by {
                        assert(rules.arith.describe(*math));
                        assert(rules.hit(*cfg.bvh, ray) == Some(hit));
                    }
                }
                Some(place)
            },
        }
    }

    /// Render an equirectangular map of what the network predicts from the surface
    /// point hit by pixel (px, py). Returns `None` if no network is loaded or the
    /// primary ray doesn't hit any geometry.
    pub fn render_nirc_probe<M: Arith>(
        &self,
        math: &M,
        px: Scalar,
        py: Scalar,
        probe_w: usize,
        probe_h: usize,
    ) -> (r: Option<Vec<Color>>)
        requires
            self.cfg().valid(),
            probe_w * probe_h <= usize::MAX,
        ensures
            self.cfg().nirc_network is None ==> r is None,
            r matches Some(probe) ==> probe.len() == probe_w * probe_h,
            forall|rules: TraceRules| #[trigger]
                rules.describe(*math) && self.sees_by(rules.arith) ==> match (
                    self.cfg().nirc_network,
                    rules.probe_place(self.cfg(), px, py),
                ) {
                    (Some(net), Some(place)) => r is Some && forall|i: int|
                        #![trigger r->0@[i]]
                        0 <= i < r->0.len() ==> r->0@[i] == rules.arith.probe_pixel(
                            net@,
                            place,
                            self.cfg().bvh.bounds_min,
                            self.cfg().bvh.bounds_max,
                            probe_w,
                            probe_h,
                            i,
                        ),
                    _ => r is None,
                },
    {
        let cfg = self.config();
        match &cfg.nirc_network {
            None => None,
            Some(net) => {
                match self.find_probe_place(math, px, py) {
                    None => None,
                    Some(place) => {
                        let probe = render_probe(
                            math,
                            net,
                            place,
                            cfg.bvh.bounds_min,
                            cfg.bvh.bounds_max,
                            probe_w,
                            probe_h,
                        );
                        proof {
                            assert forall|rules: TraceRules| #[trigger]
                                rules.describe(*math) implies rules.arith.describe(*math) by {}
                        }
                        Some(probe)
                    },
                }
            },
        }
    }
}

/// A probe is a panorama that stands upright: its rows look from above to below, its
/// columns once around from the first axis toward the third, and pixels are looked
/// at in their middle. The direction of a pixel is that of the same point of any
/// panorama that is not turned.
pub proof fn law_probe_is_a_panorama(rules: ArithRules, col: usize, row: usize, w: usize, h: usize)
    requires
        rules.keeps_zeros(),
        ({
            let half = Scalar { key: HALF_KEY };
            let u = rules.quotient(rules.sum(rules.of_count(col), half), rules.of_count(w));
            let v = rules.quotient(rules.sum(rules.of_count(row), half), rules.of_count(h));
            &&& rules.product(u, Scalar { key: TWO_PI_KEY }) == rules.product(Scalar { key: TWO_PI_KEY }, u)
            &&& rules.product(v, Scalar { key: PI_KEY }) == rules.product(Scalar { key: PI_KEY }, v)
            &&& rules.product(Scalar { key: TWO_PI_KEY }, u).ordered()
        }),
    ensures
        ({
            let half = Scalar { key: HALF_KEY };
            let u = rules.quotient(rules.sum(rules.of_count(col), half), rules.of_count(w));
            let v = rules.quotient(rules.sum(rules.of_count(row), half), rules.of_count(h));
            let theta = rules.product(Scalar { key: PI_KEY }, v);
            let phi = rules.product(Scalar { key: TWO_PI_KEY }, u);
            &&& rules.probe_direction(col, row, w, h) == rules.from_panorama(PanoramaPoint { u, v }, Scalar::zero())
            &&& rules.probe_direction(col, row, w, h).y == rules.cosine(theta)
            &&& rules.probe_direction(col, row, w, h).x == rules.product(rules.sine(theta), rules.cosine(phi))
            &&& rules.probe_direction(col, row, w, h).z == rules.product(rules.sine(theta), rules.sine(phi))
        }),
{
}

/// A probe shows nothing below its surface, and above it what the network infers,
/// channel by channel, where that is not negative.
pub proof fn law_probe_shows_what_is_inferred(
    rules: ArithRules,
    net: Net,
    place: ProbePlace,
    lo: Point3,
    hi: Point3,
    wi: Point3,
)
    ensures
        rules.dot(wi, place.geo_normal).le(Scalar::zero()) ==> rules.probed(net, place, lo, hi, wi) == black(),
        Scalar::zero().lt(rules.dot(wi, place.geo_normal)) ==> {
            let out = rules.forward(net, rules.features(place.pos, wi, lo, hi));
            let c = rules.probed(net, place, lo, hi, wi);
            &&& Scalar::zero().le(out[0]) ==> c.x == out[0]
            &&& Scalar::zero().le(out[1]) ==> c.y == out[1]
            &&& Scalar::zero().le(out[2]) ==> c.z == out[2]
        },
        black().at_most(rules.probed(net, place, lo, hi, wi)),
{
}

/// Pixels of a probe run along its rows, row after row.
pub proof fn law_probe_runs_row_by_row(
    rules: ArithRules,
    net: Net,
    place: ProbePlace,
    lo: Point3,
    hi: Point3,
    w: usize,
    h: usize,
    col: usize,
    row: usize,
)
    requires
        col < w,
        row < h,
    ensures
        rules.probe_pixel(net, place, lo, hi, w, h, row * w + col) == rules.probed(
            net,
            place,
            lo,
            hi,
            rules.probe_direction(col, row, w, h),
        ),
{
    vstd::arithmetic::div_mod::lemma_fundamental_div_mod_converse(row * w + col, w as int, row as int, col as int);
}

/// A probe stands where the ray through the pixel meets the scene, on the side that
/// the surface there faces.
pub proof fn law_probe_stands_on_the_surface(rules: TraceRules, cfg: PathTracerConfig, px: Scalar, py: Scalar)
    ensures
        ({
            let ray = rules.arith.jittered_ray(cfg.camera, cfg.width, cfg.height, px, py, seeded_128(PROBE_SEED));
            &&& rules.probe_place(cfg, px, py) is None <==> rules.hit(*cfg.bvh, ray) is None
            &&& (rules.hit(*cfg.bvh, ray) matches Some(hit) ==> {
                let surf = rules.arith.surface(hit, ray, *cfg.bvh, *cfg.scene);
                &&& (rules.probe_place(cfg, px, py)->0).pos == surf.position
                &&& (rules.probe_place(cfg, px, py)->0).geo_normal == surf.geo_normal
            })
        }),
{
}

} // verus!
