//! Lights of a scene.
use std::sync::Arc;
use vstd::prelude::*;
use crate::arith::{between, dot, minus, scaled, shrunk, Arith, ArithRules};
use crate::distribution::{row_of, Distribution2D};
use crate::emitters::{MeshEmitter, HALF_KEY};
use crate::microfacet::{luminance, PI_KEY, TWO_PI_KEY};
use crate::pcg32::{Pcg32, Stream};
use crate::scalar::{Point3, Scalar};
use crate::scene::{black, Color, Texture};
use crate::texture::are_complete;

verus! {

/// Key of the least squared distance used for point and spot falloff: it gives
/// the idealized point light a finite radius, so that the near field cannot
/// diverge. The shadow ray still uses the true distance.
pub const POINT_LIGHT_MIN_DIST2_KEY: i32 = 0x3e80_0000;

/// Key of four times pi.
pub const FOUR_PI_KEY: i32 = 0x4149_0fdb;

/// Key of twice the square of pi.
pub const TWO_PI_SQUARED_KEY: i32 = 0x419d_e9e7;

/// One sample of incident light at a shading point, in a common (solid-angle)
/// measure so that every light plugs into the same estimator.
#[derive(Clone, Copy, PartialEq, Eq, Structural, Debug)]
pub struct LightSample {
    /// From the shading point to the light, unit length.
    pub wi: Point3,
    /// For the end of the shadow ray; infinite for lights without a place.
    pub distance: Scalar,
    /// Incident radiance along `wi`.
    pub li: Color,
    /// Solid-angle density; 1 for delta lights.
    pub pdf: Scalar,
}

/// A point of a panorama.
#[derive(Clone, Copy, PartialEq, Eq, Structural, Debug)]
pub struct PanoramaPoint {
    pub u: Scalar,
    pub v: Scalar,
}

/// An equirectangular HDRI used as an infinite environment light.
pub struct EnvLight {
    pixels: Vec<Color>,
    width: usize,
    height: usize,
    /// Weighted by luminance and the sine of the polar angle.
    dist: Distribution2D,
    intensity: Scalar,
    rotation: Scalar,
}

/// The pixels of a panorama row by row, its size, the table by which it is
/// sampled, its intensity, and the angle by which it is turned around the vertical.
pub struct EnvLightView {
    pub pixels: Seq<Color>,
    pub width: usize,
    pub height: usize,
    pub dist: Distribution2D,
    pub intensity: Scalar,
    pub rotation: Scalar,
}

impl View for EnvLight {
    type V = EnvLightView;

    closed spec fn view(&self) -> EnvLightView {
        EnvLightView {
            pixels: self.pixels@,
            width: self.width,
            height: self.height,
            dist: self.dist,
            intensity: self.intensity,
            rotation: self.rotation,
        }
    }
}

impl EnvLightView {
    /// Whether all pixels are there, and the table has an entry for each.
    pub open spec fn valid(self) -> bool {
        &&& self.width * self.height <= self.pixels.len()
        &&& self.dist.is_grid(self.width as int, self.height as int)
    }

    /// Whether there is a pixel.
    pub open spec fn has_pixels(self) -> bool {
        self.width > 0 && self.height > 0
    }

    /// The pixel of a column and a row: columns repeat, rows end at the poles.
    pub open spec fn pixel(self, x: int, y: int) -> Color {
        let row = if y < 0 {
            0
        } else if y < self.height {
            y
        } else {
            self.height - 1
        };
        self.pixels[row * self.width + x % (self.width as int)]
    }
}

/// A scene light. Punctual variants (Point/Directional/Spot) are delta lights
/// (a scattered ray can never hit them). `Area` and `Environment` are not, and
/// take part in multiple importance sampling.
#[derive(Clone)]
pub enum Light {
    Point { position: Point3, color: Color, intensity: Scalar },
    /// `direction` is the one the light travels in.
    Directional { direction: Point3, color: Color, intensity: Scalar },
    Spot { position: Point3, direction: Point3, color: Color, intensity: Scalar },
    Area(Arc<MeshEmitter>),
    Environment(Arc<EnvLight>),
}

impl ArithRules {
    /// The sine of the polar angle in the middle of a row.
    pub open spec fn row_sine(self, v: usize, height: usize) -> Scalar {
        self.sine(
            self.quotient(
                self.product(Scalar { key: PI_KEY }, self.sum(self.of_count(v), Scalar { key: HALF_KEY })),
                self.of_count(height),
            ),
        )
    }

    /// A direction (unit, y-up) as a point of a panorama.
    pub open spec fn to_panorama(self, dir: Point3, rotation: Scalar) -> PanoramaPoint {
        let theta = self.arc_cosine(dir.y.clamped(Scalar::one().negated(), Scalar::one()));
        let phi = self.difference(self.arc_tangent(dir.z, dir.x), rotation);
        PanoramaPoint {
            u: self.quotient(self.wrapped(phi, Scalar { key: TWO_PI_KEY }), Scalar { key: TWO_PI_KEY }),
            v: self.quotient(theta, Scalar { key: PI_KEY }),
        }
    }

    /// A point of a panorama as a direction (unit, y-up).
    pub open spec fn from_panorama(self, p: PanoramaPoint, rotation: Scalar) -> Point3 {
        let phi = self.sum(self.product(Scalar { key: TWO_PI_KEY }, p.u), rotation);
        let theta = self.product(Scalar { key: PI_KEY }, p.v);
        let sin_t = self.sine(theta);
        Point3 { x: self.product(sin_t, self.cosine(phi)), y: self.cosine(theta), z: self.product(sin_t, self.sine(phi)) }
    }

    /// A density over a panorama as one over directions; zero at the poles.
    pub open spec fn solid_angle_pdf(self, pdf: Scalar, v: Scalar) -> Option<Scalar> {
        let sin_t = self.sine(self.product(Scalar { key: PI_KEY }, v));
        if sin_t.le(Scalar::zero()) {
            None
        } else {
            Some(self.quotient(pdf, self.product(Scalar { key: TWO_PI_SQUARED_KEY }, sin_t)))
        }
    }

    /// What a point light gives at a point; none at its own place.
    pub open spec fn point_light_sample(self, position: Point3, color: Color, intensity: Scalar, x: Point3) -> Option<LightSample> {
        let to = self.minus(position, x);
        let d2 = self.dot(to, to);
        if d2.le(Scalar::zero()) {
            None
        } else {
            let distance = self.root(d2);
            let falloff = d2.max(Scalar { key: POINT_LIGHT_MIN_DIST2_KEY });
            Some(
                LightSample {
                    wi: self.shrunk(to, distance),
                    distance,
                    li: self.scaled(color, self.quotient(intensity, self.product(Scalar { key: FOUR_PI_KEY }, falloff))),
                    pdf: Scalar::one(),
                },
            )
        }
    }
}

/// The sine of the polar angle in the middle of a row.
fn row_sine<M: Arith>(math: &M, v: usize, height: usize) -> (r: Scalar)
    ensures
        forall|rules: ArithRules| #[trigger] rules.describe(*math) ==> r == rules.row_sine(v, height),
{
    math.sine(
        math.quotient(
            math.product(Scalar { key: PI_KEY }, math.sum(math.of_count(v), Scalar { key: HALF_KEY })),
            math.of_count(height),
        ),
    )
}

/// A direction (unit, y-up) as a point of a panorama.
fn to_panorama<M: Arith>(math: &M, dir: Point3, rotation: Scalar) -> (r: PanoramaPoint)
    ensures
        forall|rules: ArithRules| #[trigger] rules.describe(*math) ==> r == rules.to_panorama(dir, rotation),
{
    let theta = math.arc_cosine(dir.y.clamped(Scalar::one().negated(), Scalar::one()));
    let phi = math.difference(math.arc_tangent(dir.z, dir.x), rotation);
    PanoramaPoint {
        u: math.quotient(math.wrapped(phi, Scalar { key: TWO_PI_KEY }), Scalar { key: TWO_PI_KEY }),
        v: math.quotient(theta, Scalar { key: PI_KEY }),
    }
}

/// A point of a panorama as a direction (unit, y-up).
fn from_panorama<M: Arith>(math: &M, p: PanoramaPoint, rotation: Scalar) -> (r: Point3)
    ensures
        forall|rules: ArithRules| #[trigger] rules.describe(*math) ==> r == rules.from_panorama(p, rotation),
{
    let phi = math.sum(math.product(Scalar { key: TWO_PI_KEY }, p.u), rotation);
    let theta = math.product(Scalar { key: PI_KEY }, p.v);
    let sin_t = math.sine(theta);
    Point3 { x: math.product(sin_t, math.cosine(phi)), y: math.cosine(theta), z: math.product(sin_t, math.sine(phi)) }
}

/// A density over a panorama as one over directions; zero at the poles.
fn solid_angle_pdf<M: Arith>(math: &M, pdf: Scalar, v: Scalar) -> (r: Option<Scalar>)
    ensures
        forall|rules: ArithRules| #[trigger] rules.describe(*math) ==> r == rules.solid_angle_pdf(pdf, v),
{
    let sin_t = math.sine(math.product(Scalar { key: PI_KEY }, v));
    if sin_t.le(Scalar::zero()) {
        None
    } else {
        Some(math.quotient(pdf, math.product(Scalar { key: TWO_PI_SQUARED_KEY }, sin_t)))
    }
}

/// What a point light gives at a point; none at its own place.
fn point_light_sample<M: Arith>(math: &M, position: Point3, color: Color, intensity: Scalar, x: Point3) -> (r: Option<LightSample>)
    ensures
        r matches Some(s) ==> s.pdf == Scalar::one(),
        forall|rules: ArithRules| #[trigger] rules.describe(*math) ==> r == rules.point_light_sample(position, color, intensity, x),
{
    let to = minus(math, position, x);
    let d2 = dot(math, to, to);
    if d2.le(Scalar::zero()) {
        None
    } else {
        let distance = math.root(d2);
        let falloff = d2.max(Scalar { key: POINT_LIGHT_MIN_DIST2_KEY });
        Some(
            LightSample {
                wi: shrunk(math, to, distance),
                distance,
                li: scaled(math, color, math.quotient(intensity, math.product(Scalar { key: FOUR_PI_KEY }, falloff))),
                pdf: Scalar::one(),
            },
        )
    }
}

impl ArithRules {
    /// How much a pixel of a panorama weighs when it is sampled: its luminance and
    /// the share of the sphere that its row covers.
    pub open spec fn panorama_weight(self, pixels: Seq<Color>, width: int, height: int, i: int) -> Scalar {
        self.product(self.luminance(pixels[i]), self.row_sine((i / width) as usize, height as usize))
    }

    /// The weights of all pixels of a panorama.
    pub open spec fn panorama_weights(self, pixels: Seq<Color>, width: int, height: int) -> Seq<Scalar> {
        Seq::new((width * height) as nat, |i: int| self.panorama_weight(pixels, width, height, i))
    }

    /// Whether a table samples a panorama by its weights.
    pub open spec fn samples_panorama(self, dist: Distribution2D, pixels: Seq<Color>, width: int, height: int) -> bool {
        let weights = self.panorama_weights(pixels, width, height);
        &&& dist.marginal.cdf@ == self.cdf_of(self.row_integrals(weights, width, height))
        &&& forall|v: int|
            0 <= v < height ==> (#[trigger] dist.conditional@[v]).cdf@ == self.cdf_of(
                row_of(weights, width, v),
            )
    }

    /// The radiance at a point of a panorama: bilinear between pixels, times the
    /// intensity.
    pub open spec fn panorama_radiance(self, env: EnvLightView, p: PanoramaPoint) -> Color {
        let px = self.difference(self.product(p.u, self.of_count(env.width)), Scalar { key: HALF_KEY });
        let py = self.difference(self.product(p.v, self.of_count(env.height)), Scalar { key: HALF_KEY });
        let ix = self.to_index(self.floor(px)) as int;
        let iy = self.to_index(self.floor(py)) as int;
        let tx = self.difference(px, self.floor(px));
        let ty = self.difference(py, self.floor(py));
        self.scaled(
            self.between(
                self.between(env.pixel(ix, iy), env.pixel(ix + 1, iy), tx),
                self.between(env.pixel(ix, iy + 1), env.pixel(ix + 1, iy + 1), tx),
                ty,
            ),
            env.intensity,
        )
    }

    /// The radiance that comes along a direction from infinitely far.
    pub open spec fn background(self, light: Light, dir: Point3) -> Color {
        match light {
            Light::Environment(env) => self.panorama_radiance(env@, self.to_panorama(dir, env@.rotation)),
            _ => black(),
        }
    }

    /// The density at which a light samples a direction that meets nothing.
    pub open spec fn escape_pdf(self, light: Light, dir: Point3) -> Scalar {
        match light {
            Light::Environment(env) => {
                let p = self.to_panorama(dir, env@.rotation);
                match self.solid_angle_pdf(self.square_pdf(env@.dist, p.u, p.v), p.v) {
                    Some(pdf) => pdf,
                    None => Scalar::zero(),
                }
            },
            _ => Scalar::zero(),
        }
    }

    /// The density at which a light samples a point of its surface, seen from a
    /// squared distance and at a cosine.
    pub open spec fn surface_pdf(self, light: Light, dist2: Scalar, cos_l: Scalar) -> Scalar {
        match light {
            Light::Area(mesh) => if Scalar::zero().lt(cos_l) {
                self.quotient(dist2, self.product(mesh@.total_area, cos_l))
            } else {
                Scalar::zero()
            },
            _ => Scalar::zero(),
        }
    }

    /// What an area light gives at a point, from the place that three draws pick.
    pub open spec fn area_light_sample(
        self,
        mesh: MeshEmitter,
        x: Point3,
        rng: Stream,
        textures: Seq<Texture>,
    ) -> Option<LightSample> {
        let geom = self.geom_sample(mesh@, rng.value(), rng.next().value(), rng.next().next().value());
        let to = self.minus(geom.p, x);
        let d2 = self.dot(to, to);
        if d2.le(Scalar::zero()) {
            None
        } else {
            let distance = self.root(d2);
            let wi = self.shrunk(to, distance);
            let cos_l = self.dot(geom.normal, wi.negated());
            let pdf = self.quotient(self.product(geom.pdf_area, d2), cos_l);
            if cos_l.le(Scalar::zero()) || pdf.le(Scalar::zero()) {
                None
            } else {
                Some(LightSample { wi, distance, li: self.emitted(mesh@, geom, textures), pdf })
            }
        }
    }

    /// What an environment gives, from the direction that two draws pick.
    pub open spec fn env_light_sample(self, env: EnvLightView, rng: Stream) -> Option<LightSample> {
        let s = self.square_sample(env.dist, rng.value(), rng.next().value());
        let p = PanoramaPoint { u: s.u, v: s.v };
        if s.pdf.le(Scalar::zero()) {
            None
        } else {
            match self.solid_angle_pdf(s.pdf, s.v) {
                None => None,
                Some(pdf) => Some(
                    LightSample {
                        wi: self.from_panorama(p, env.rotation),
                        distance: Scalar::infinity(),
                        li: self.panorama_radiance(env, p),
                        pdf,
                    },
                ),
            }
        }
    }

    /// What a light gives at a point. None if it cannot contribute.
    pub open spec fn light_sample(self, light: Light, x: Point3, rng: Stream, textures: Seq<Texture>) -> Option<
        LightSample,
    > {
        match light {
            Light::Point { position, color, intensity } => self.point_light_sample(position, color, intensity, x),
            Light::Spot { position, color, intensity, .. } => self.point_light_sample(position, color, intensity, x),
            Light::Directional { direction, color, intensity } => Some(
                LightSample {
                    wi: direction.negated(),
                    distance: Scalar::infinity(),
                    li: self.scaled(color, intensity),
                    pdf: Scalar::one(),
                },
            ),
            Light::Area(mesh) => self.area_light_sample(*mesh, x, rng, textures),
            Light::Environment(env) => self.env_light_sample(env@, rng),
        }
    }
}

/// An index, wrapped into a number of columns.
fn wrap_column(x: i64, width: usize) -> (r: usize)
    requires
        width > 0,
    ensures
        r == x as int % (width as int),
        r < width,
{
    let w: i128 = width as i128;
    let y: i128 = x as i128;
    if y >= 0 {
        (y % w) as usize
    } else {
        let m: i128 = (-1 - y) % w;
        proof {
            vstd::arithmetic::div_mod::lemma_fundamental_div_mod((-1 - y) as int, w as int);
            let q = (-1 - y) as int / (w as int);
            assert(y == w * (-1 - q) + (w - 1 - m)) by (nonlinear_arith)
                requires
                    -1 - y == w * q + m,
            ;
            vstd::arithmetic::div_mod::lemma_fundamental_div_mod_converse(y as int, w as int, -1 - q, w - 1 - m);
        }
        (w - 1 - m) as usize
    }
}

/// An index, kept within a number of rows.
fn clamp_row(y: i64, height: usize) -> (r: usize)
    requires
        height > 0,
    ensures
        r == (if y < 0 {
            0
        } else if y < height {
            y as int
        } else {
            height - 1
        }),
        r < height,
{
    if y < 0 {
        0
    } else if (y as u64) < height as u64 {
        y as usize
    } else {
        height - 1
    }
}

impl EnvLight {
    /// Whether there is a pixel.
    pub fn is_visible(&self) -> (r: bool)
        ensures
            r == self@.has_pixels(),
    {
        self.width > 0 && self.height > 0
    }
}

impl EnvLight {
    /// All pixels are there, and the table has an entry for each.
    #[verifier::type_invariant]
    spec fn is_sound(self) -> bool {
        self@.valid()
    }

    /// A panorama of a width and a height, row by row.
    pub fn new<M: Arith>(
        math: &M,
        pixels: Vec<Color>,
        width: usize,
        height: usize,
        intensity: Scalar,
        rotation: Scalar,
    ) -> (r: EnvLight)
        requires
            width * height <= pixels.len(),
        ensures
            r@.valid(),
            r@.pixels == pixels@,
            r@.width == width,
            r@.height == height,
            r@.intensity == intensity,
            r@.rotation == rotation,
            forall|rules: ArithRules| #[trigger]
                rules.describe(*math) ==> rules.samples_panorama(r@.dist, pixels@, width as int, height as int),
    {
        let mut func: Vec<Scalar> = Vec::new();
        let mut v: usize = 0;
        assert(0 * width == 0);
        while v < height
            invariant
                v <= height,
                width * height <= pixels.len(),
                func.len() == v * width,
                forall|rules: ArithRules, i: int|
                    #![trigger rules.describe(*math), func@[i]]
                    rules.describe(*math) && 0 <= i < func.len() ==> func@[i] == rules.panorama_weight(
                        pixels@,
                        width as int,
                        height as int,
                        i,
                    ),
            decreases height - v,
        {
            let sin_t = row_sine(math, v, height);
            let mut u: usize = 0;
            assert((v + 1) * width <= width * height) by (nonlinear_arith)
                requires
                    v + 1 <= height,
            ;
            assert((v + 1) * width == v * width + width) by (nonlinear_arith);
            while u < width
                invariant
                    u <= width,
                    v < height,
                    v * width + width <= width * height <= pixels.len(),
                    func.len() == v * width + u,
                    forall|rules: ArithRules| #[trigger] rules.describe(*math) ==> sin_t == rules.row_sine(v, height),
                    forall|rules: ArithRules, i: int|
                        #![trigger rules.describe(*math), func@[i]]
                        rules.describe(*math) && 0 <= i < func.len() ==> func@[i] == rules.panorama_weight(
                            pixels@,
                            width as int,
                            height as int,
                            i,
                        ),
                decreases width - u,
            {
                proof {
                    vstd::arithmetic::div_mod::lemma_fundamental_div_mod_converse(
                        v * width + u,
                        width as int,
                        v as int,
                        u as int,
                    );
                }
                let weight = math.product(luminance(math, pixels[v * width + u]), sin_t);
                func.push(weight);
                u = u + 1;
            }
            v = v + 1;
        }
        assert(width * height == height * width) by (nonlinear_arith);
        let dist = Distribution2D::new(math, &func, width, height);
        proof {
            assert forall|rules: ArithRules| #[trigger] rules.describe(*math) implies rules.samples_panorama(
                dist,
                pixels@,
                width as int,
                height as int,
            ) by {
                assert(func@ =~= rules.panorama_weights(pixels@, width as int, height as int));
            }
        }
        EnvLight { pixels, width, height, dist, intensity, rotation }
    }

    /// The pixel of a column and a row: columns repeat, rows end at the poles.
    fn get(&self, x: i64, y: i64) -> (r: Color)
        requires
            self@.has_pixels(),
        ensures
            r == self@.pixel(x as int, y as int),
    {
        proof {
            use_type_invariant(self);
        }
        let column: usize = wrap_column(x, self.width);
        let row: usize = clamp_row(y, self.height);
        assert(row * self.width + column < self.width * self.height) by (nonlinear_arith)
            requires
                row < self.height,
                column < self.width,
        ;
        assert(0 <= row * self.width) by (nonlinear_arith);
        assert(self.width * self.height <= self.pixels.len());
        self.pixels[row * self.width + column]
    }

    /// Radiance at a point: bilinear sample times intensity.
    fn radiance_uv<M: Arith>(&self, math: &M, p: PanoramaPoint) -> (r: Color)
        requires
            self@.has_pixels(),
        ensures
            forall|rules: ArithRules| #[trigger] rules.describe(*math) ==> r == rules.panorama_radiance(self@, p),
    {
        let px = math.difference(math.product(p.u, math.of_count(self.width)), Scalar { key: HALF_KEY });
        let py = math.difference(math.product(p.v, math.of_count(self.height)), Scalar { key: HALF_KEY });
        let fx = math.floor(px);
        let fy = math.floor(py);
        let ix: i64 = math.to_index(fx) as i64;
        let iy: i64 = math.to_index(fy) as i64;
        let tx = math.difference(px, fx);
        let ty = math.difference(py, fy);
        let c00 = self.get(ix, iy);
        let c10 = self.get(ix + 1, iy);
        let c01 = self.get(ix, iy + 1);
        let c11 = self.get(ix + 1, iy + 1);
        scaled(math, between(math, between(math, c00, c10, tx), between(math, c01, c11, tx), ty), self.intensity)
    }
}

impl Light {
    /// Whether the light can be sampled: a panorama has pixels.
    pub open spec fn can_be_sampled(self) -> bool {
        match self {
            Light::Environment(env) => env@.has_pixels(),
            _ => true,
        }
    }

    /// Whether the light can be sampled.
    pub fn check_sampling(&self) -> (r: bool)
        ensures
            r == self.can_be_sampled(),
    {
        match self {
            Light::Environment(env) => env.is_visible(),
            _ => true,
        }
    }

    /// The random stream after the light was sampled.
    pub open spec fn rng_after(self, rng: Stream) -> Stream {
        match self {
            Light::Area(_) => rng.next().next().next(),
            Light::Environment(_) => rng.next().next(),
            _ => rng,
        }
    }

    /// Whether this is an emissive mesh.
    #[verifier::allow_in_spec]
    pub fn is_area(&self) -> bool
        returns
            self is Area,
    {
        matches!(self, Light::Area(_))
    }

    /// Delta lights (punctual) have a singular distribution and can't be reached
    /// by scattering: they take no part in multiple importance sampling.
    #[verifier::allow_in_spec]
    pub fn is_delta(&self) -> bool
        returns
            self is Point || self is Directional || self is Spot,
    {
        matches!(self, Light::Point { .. } | Light::Directional { .. } | Light::Spot { .. })
    }

    /// Solid-angle density this light assigns to a direction: non-zero only for
    /// the environment, for the weight of a scattered ray that escapes into it.
    pub fn env_pdf<M: Arith>(&self, math: &M, dir: Point3) -> (r: Scalar)
        requires
            self.can_be_sampled(),
        ensures
            !(self is Environment) ==> r == Scalar::zero(),
            forall|rules: ArithRules| #[trigger] rules.describe(*math) ==> r == rules.escape_pdf(*self, dir),
    {
        match self {
            Light::Environment(env) => {
                proof {
                    use_type_invariant(env);
                    assert(env@.dist.is_grid(env@.width as int, env@.height as int));
                }
                let p = to_panorama(math, dir, env.rotation);
                match solid_angle_pdf(math, env.dist.pdf(math, p.u, p.v), p.v) {
                    Some(pdf) => pdf,
                    None => Scalar::zero(),
                }
            },
            _ => Scalar::zero(),
        }
    }

    /// Environment radiance along a direction; black for other lights.
    pub fn radiance<M: Arith>(&self, math: &M, dir: Point3) -> (r: Color)
        requires
            self.can_be_sampled(),
        ensures
            !(self is Environment) ==> r == black(),
            forall|rules: ArithRules| #[trigger] rules.describe(*math) ==> r == rules.background(*self, dir),
    {
        match self {
            Light::Environment(env) => {
                let p = to_panorama(math, dir, env.rotation);
                env.radiance_uv(math, p)
            },
            _ => black(),
        }
    }

    /// Solid-angle density assigned to a point on this light, given the squared
    /// distance and emitter-side cosine. Zero for non-area or back-facing.
    pub fn area_pdf<M: Arith>(&self, math: &M, dist2: Scalar, cos_l: Scalar) -> (r: Scalar)
        ensures
            !(self is Area) || !Scalar::zero().lt(cos_l) ==> r == Scalar::zero(),
            forall|rules: ArithRules| #[trigger] rules.describe(*math) ==> r == rules.surface_pdf(*self, dist2, cos_l),
    {
        match self {
            Light::Area(mesh) => {
                if Scalar::zero().lt(cos_l) {
                    math.quotient(dist2, math.product(mesh.total_area(), cos_l))
                } else {
                    Scalar::zero()
                }
            },
            _ => Scalar::zero(),
        }
    }

    /// Sample incident radiance at `x`. Returns `None` if the light cannot
    /// contribute (degenerate distance, back-facing emitter).
    pub fn sample_li<M: Arith>(&self, math: &M, x: Point3, rng: &mut Pcg32, textures: &Vec<Texture>) -> (r: Option<
        LightSample,
    >)
        requires
            self.can_be_sampled(),
            are_complete(textures@),
        ensures
            final(rng)@ == self.rng_after(old(rng)@),
            self.is_delta() ==> (r matches Some(s) ==> s.pdf == Scalar::one()),
            forall|rules: ArithRules| #[trigger]
                rules.describe(*math) ==> r == rules.light_sample(*self, x, old(rng)@, textures@),
    {
        match self {
            Light::Point { position, color, intensity } => {
                point_light_sample(math, *position, *color, *intensity, x)
            },
            Light::Spot { position, color, intensity, .. } => {
                point_light_sample(math, *position, *color, *intensity, x)
            },
            Light::Directional { direction, color, intensity } => Some(
                LightSample {
                    wi: direction.negated(),
                    distance: Scalar::infinity(),
                    li: scaled(math, *color, *intensity),
                    pdf: Scalar::one(),
                },
            ),
            Light::Area(mesh) => {
                let geom = mesh.sample_geom(math, rng);
                let to = minus(math, geom.p, x);
                let d2 = dot(math, to, to);
                if d2.le(Scalar::zero()) {
                    return None;
                }
                let distance = math.root(d2);
                let wi = shrunk(math, to, distance);
                let cos_l = dot(math, geom.normal, wi.negated());
                if cos_l.le(Scalar::zero()) {
                    return None;
                }
                let li = mesh.le_at(math, &geom, textures);
                let pdf = math.quotient(math.product(geom.pdf_area, d2), cos_l);
                if pdf.le(Scalar::zero()) {
                    return None;
                }
                Some(LightSample { wi, distance, li, pdf })
            },
            Light::Environment(env) => {
                proof {
                    use_type_invariant(env);
                    assert(env@.dist.is_grid(env@.width as int, env@.height as int));
                }
                let u1 = rng.next_f32();
                let u2 = rng.next_f32();
                let s = env.dist.sample(math, u1, u2);
                if s.pdf.le(Scalar::zero()) {
                    return None;
                }
                let p = PanoramaPoint { u: s.u, v: s.v };
                match solid_angle_pdf(math, s.pdf, s.v) {
                    None => None,
                    Some(pdf) => Some(
                        LightSample {
                            wi: from_panorama(math, p, env.rotation),
                            distance: Scalar::infinity(),
                            li: env.radiance_uv(math, p),
                            pdf,
                        },
                    ),
                }
            },
        }
    }
}

/// The same light once more.
fn copy_light(light: &Light) -> (r: Light)
    ensures
        r == *light,
{
    match light {
        Light::Point { position, color, intensity } => Light::Point {
            position: *position,
            color: *color,
            intensity: *intensity,
        },
        Light::Directional { direction, color, intensity } => Light::Directional {
            direction: *direction,
            color: *color,
            intensity: *intensity,
        },
        Light::Spot { position, direction, color, intensity } => Light::Spot {
            position: *position,
            direction: *direction,
            color: *color,
            intensity: *intensity,
        },
        Light::Area(mesh) => Light::Area(mesh.clone()),
        Light::Environment(env) => Light::Environment(env.clone()),
    }
}

/// The same lights once more.
pub fn copy_lights(lights: &Vec<Light>) -> (r: Vec<Light>)
    ensures
        r@ == lights@,
{
    let mut copies: Vec<Light> = Vec::new();
    let mut i: usize = 0;
    while i < lights.len()
        invariant
            i <= lights.len(),
            copies@ == lights@.take(i as int),
        decreases lights.len() - i,
    {
        copies.push(copy_light(&lights[i]));
        i = i + 1;
        assert(copies@ =~= lights@.take(i as int));
    }
    assert(lights@.take(i as int) =~= lights@);
    copies
}

/// Builds the unified light list: scene punctual lights, then one area light
/// per emissive mesh instance.
pub fn build_lights(punctual: Vec<Light>, emitters: Vec<MeshEmitter>) -> (r: Vec<Light>)
    ensures
        r@ == punctual@ + emitters@.map_values(|e: MeshEmitter| Light::Area(Arc::new(e))),
{
    let mut lights = punctual;
    let mut rest = emitters;
    let ghost all = emitters@.map_values(|e: MeshEmitter| Light::Area(Arc::new(e)));
    let mut areas: Vec<Light> = Vec::new();
    while rest.len() > 0
        invariant
            rest.len() <= emitters.len(),
            rest@ == emitters@.take(rest.len() as int),
            areas.len() == emitters.len() - rest.len(),
            forall|i: int| 0 <= i < areas.len() ==> #[trigger] areas[i] == Light::Area(Arc::new(emitters@[emitters.len() - 1 - i])),
        decreases rest.len(),
    {
        let e = rest.pop().unwrap();
        areas.push(Light::Area(Arc::new(e)));
    }
    while areas.len() > 0
        invariant
            areas.len() <= emitters.len(),
            all == emitters@.map_values(|e: MeshEmitter| Light::Area(Arc::new(e))),
            forall|i: int| 0 <= i < areas.len() ==> #[trigger] areas[i] == Light::Area(Arc::new(emitters@[emitters.len() - 1 - i])),
            lights@ == punctual@ + all.take(emitters.len() - areas.len()),
        decreases areas.len(),
    {
        let ghost k = emitters.len() - areas.len();
        let a = areas.pop().unwrap();
        lights.push(a);
        assert(lights@ =~= punctual@ + all.take(k + 1));
    }
    assert(all.take(emitters.len() as int) =~= all);
    lights
}

/// Panoramas stand upright: straight up is the first row and straight down the
/// last, wherever the angles of the poles are nothing and pi; and whatever is
/// higher is further up, wherever an arc cosine falls and dividing keeps the order.
pub proof fn law_panorama_stands_upright(rules: ArithRules, high: Point3, low: Point3, rotation: Scalar)
    requires
        rules.keeps_zeros(),
        rules.keeps_selves(),
        rules.orders_products(),
        rules.arc_cosine(Scalar::one()) == Scalar::zero(),
        rules.arc_cosine(Scalar::one().negated()) == (Scalar { key: PI_KEY }),
        forall|a: Scalar, b: Scalar|
            #![trigger rules.arc_cosine(a), rules.arc_cosine(b)]
            Scalar::one().negated().le(a) && a.le(b) && b.le(Scalar::one()) ==> rules.arc_cosine(b).le(
                rules.arc_cosine(a),
            ) && rules.arc_cosine(a).is_finite() && rules.arc_cosine(b).is_finite(),
        low.y.le(high.y),
    ensures
        Scalar::one().le(high.y) ==> rules.to_panorama(high, rotation).v == Scalar::zero(),
        low.y.le(Scalar::one().negated()) ==> rules.to_panorama(low, rotation).v == Scalar::one(),
        rules.to_panorama(high, rotation).v.le(rules.to_panorama(low, rotation).v),
{
    let a = low.y.clamped(Scalar::one().negated(), Scalar::one());
    let b = high.y.clamped(Scalar::one().negated(), Scalar::one());
    assert(rules.arc_cosine(b).le(rules.arc_cosine(a)));
}

/// The upper half of a panorama is above and the lower half below, wherever cosines
/// are positive in the first quarter turn and negative in the second.
pub proof fn law_upper_half_is_above(rules: ArithRules, p: PanoramaPoint, rotation: Scalar)
    requires
        rules.orders_products(),
        Scalar::zero().le(p.v),
        p.v.is_finite(),
        rules.product(Scalar { key: PI_KEY }, Scalar { key: HALF_KEY }).is_finite(),
        rules.product(Scalar { key: PI_KEY }, Scalar::one()) == (Scalar { key: PI_KEY }),
        rules.product(Scalar { key: PI_KEY }, Scalar::zero()) == Scalar::zero(),
        forall|a: Scalar|
            Scalar::zero().le(a) && a.le(rules.product(Scalar { key: PI_KEY }, Scalar { key: HALF_KEY }))
                ==> Scalar::zero().le(#[trigger] rules.cosine(a)),
        forall|a: Scalar|
            rules.product(Scalar { key: PI_KEY }, Scalar { key: HALF_KEY }).lt(a) && a.le(Scalar { key: PI_KEY })
                ==> (#[trigger] rules.cosine(a)).lt(Scalar::zero()),
    ensures
        p.v.le(Scalar { key: HALF_KEY }) ==> Scalar::zero().le(rules.from_panorama(p, rotation).y),
        p.v.le(Scalar::one()) && rules.product(Scalar { key: PI_KEY }, Scalar { key: HALF_KEY }).lt(
            rules.product(Scalar { key: PI_KEY }, p.v),
        ) ==> rules.from_panorama(p, rotation).y.lt(Scalar::zero()),
{
    let theta = rules.product(Scalar { key: PI_KEY }, p.v);
    assert(rules.product(Scalar { key: PI_KEY }, Scalar::zero()).le(theta));
}

/// The left edge of a panorama that is not turned looks along the first axis, and
/// its first half to the side of the third, wherever zero does as it should, sines
/// are not negative in the first half turn and cosines of nothing are one.
pub proof fn law_panorama_turns_from_the_first_axis(rules: ArithRules, p: PanoramaPoint)
    requires
        rules.keeps_zeros(),
        rules.keeps_ones(),
        rules.orders_products(),
        rules.sine(Scalar::zero()) == Scalar::zero(),
        rules.cosine(Scalar::zero()) == Scalar::one(),
        rules.product(Scalar { key: TWO_PI_KEY }, p.u).is_finite(),
        Scalar::zero().le(rules.sine(rules.product(Scalar { key: PI_KEY }, p.v))),
        rules.sine(rules.product(Scalar { key: PI_KEY }, p.v)).is_finite(),
        rules.sine(rules.product(Scalar { key: TWO_PI_KEY }, p.u)).is_finite(),
    ensures
        p.u == Scalar::zero() ==> Scalar::zero().le(rules.from_panorama(p, Scalar::zero()).x) && rules.from_panorama(
            p,
            Scalar::zero(),
        ).z == Scalar::zero(),
        Scalar::zero().le(rules.sine(rules.product(Scalar { key: TWO_PI_KEY }, p.u))) ==> Scalar::zero().le(
            rules.from_panorama(p, Scalar::zero()).z,
        ),
        rules.sine(rules.product(Scalar { key: TWO_PI_KEY }, p.u)).le(Scalar::zero()) ==> rules.from_panorama(
            p,
            Scalar::zero(),
        ).z.le(Scalar::zero()),
{
    let sin_t = rules.sine(rules.product(Scalar { key: PI_KEY }, p.v));
    let s = rules.sine(rules.product(Scalar { key: TWO_PI_KEY }, p.u));
    assert(rules.product(sin_t, Scalar::zero()) == Scalar::zero());
    if Scalar::zero().le(s) {
        assert(rules.product(sin_t, Scalar::zero()).le(rules.product(sin_t, s)));
    }
    if s.le(Scalar::zero()) {
        assert(rules.product(sin_t, s).le(rules.product(sin_t, Scalar::zero())));
    }
}

/// Turning a panorama moves its columns and nothing else: points whose angles agree
/// once each is turned by its own rotation have one direction, if they are in one
/// row; and the height of a direction depends on the row alone.
pub proof fn law_rotation_moves_columns(
    rules: ArithRules,
    a: PanoramaPoint,
    b: PanoramaPoint,
    rotation_a: Scalar,
    rotation_b: Scalar,
)
    requires
        a.v == b.v,
    ensures
        rules.sum(rules.product(Scalar { key: TWO_PI_KEY }, a.u), rotation_a) == rules.sum(
            rules.product(Scalar { key: TWO_PI_KEY }, b.u),
            rotation_b,
        ) ==> rules.from_panorama(a, rotation_a) == rules.from_panorama(b, rotation_b),
        rules.from_panorama(a, rotation_a).y == rules.from_panorama(b, rotation_b).y,
{
}

/// Whether angles can be found again from the direction that they give: the polar
/// angle from its cosine, and the angle around the vertical from the two sides
/// that its cosine and sine are.
pub open spec fn finds_angles(rules: ArithRules, p: PanoramaPoint, rotation: Scalar) -> bool {
    let around = rules.product(Scalar { key: TWO_PI_KEY }, p.u);
    let turned = rules.sum(around, rotation);
    let polar = rules.product(Scalar { key: PI_KEY }, p.v);
    let radius = rules.sine(polar);
    &&& Scalar::one().negated().le(rules.cosine(polar)) && rules.cosine(polar).le(Scalar::one())
    &&& rules.arc_cosine(rules.cosine(polar)) == polar
    &&& rules.quotient(polar, Scalar { key: PI_KEY }) == p.v
    &&& rules.arc_tangent(
        rules.product(radius, rules.sine(turned)),
        rules.product(radius, rules.cosine(turned)),
    ) == turned
    &&& rules.difference(turned, rotation) == around
    &&& rules.wrapped(around, Scalar { key: TWO_PI_KEY }) == around
    &&& rules.quotient(around, Scalar { key: TWO_PI_KEY }) == p.u
}

/// Looking up the direction of a point of a panorama finds the point again,
/// wherever angles can be found again.
pub proof fn law_panorama_point_is_found_again(rules: ArithRules, p: PanoramaPoint, rotation: Scalar)
    requires
        finds_angles(rules, p, rotation),
    ensures
        rules.to_panorama(rules.from_panorama(p, rotation), rotation) == p,
{
}

/// What is sampled of an environment is what a ray in that direction sees, and with
/// the density at which such a ray weighs it, wherever angles can be found again and
/// the table has the density at a point that it sampled it with.
pub proof fn law_env_sample_is_what_a_ray_sees(rules: ArithRules, light: Light, x: Point3, rng: Stream, textures: Seq<Texture>)
    requires
        light is Environment,
        ({
            let env = light->Environment_0@;
            let s = rules.square_sample(env.dist, rng.value(), rng.next().value());
            &&& finds_angles(rules, PanoramaPoint { u: s.u, v: s.v }, env.rotation)
            &&& rules.square_pdf(env.dist, s.u, s.v) == s.pdf
        }),
    ensures
        rules.light_sample(light, x, rng, textures) matches Some(s) ==> {
            &&& s.li == rules.background(light, s.wi)
            &&& s.pdf == rules.escape_pdf(light, s.wi)
            &&& s.distance == Scalar::infinity()
        },
{
}

/// The density over directions, times the share of the sphere that a patch of the
/// panorama covers, is the density over the panorama; it is nothing at the poles.
pub proof fn law_density_follows_the_sphere(rules: ArithRules, pdf: Scalar, v: Scalar)
    requires
        ({
            let covered = rules.product(
                Scalar { key: TWO_PI_SQUARED_KEY },
                rules.sine(rules.product(Scalar { key: PI_KEY }, v)),
            );
            rules.product(rules.quotient(pdf, covered), covered) == pdf
        }),
    ensures
        rules.solid_angle_pdf(pdf, v) is None <==> rules.sine(rules.product(Scalar { key: PI_KEY }, v)).le(
            Scalar::zero(),
        ),
        rules.solid_angle_pdf(pdf, v) matches Some(r) ==> rules.product(
            r,
            rules.product(
                Scalar { key: TWO_PI_SQUARED_KEY },
                rules.sine(rules.product(Scalar { key: PI_KEY }, v)),
            ),
        ) == pdf,
{
}

/// An environment of one color sends that color from everywhere, times its
/// intensity, wherever a color between equals is the same.
pub proof fn law_even_sky_is_even(rules: ArithRules, env: EnvLightView, p: PanoramaPoint, color: Color)
    requires
        env.valid(),
        env.has_pixels(),
        forall|i: int| 0 <= i < env.pixels.len() ==> env.pixels[i] == color,
        ({
            let px = rules.difference(rules.product(p.u, rules.of_count(env.width)), Scalar { key: HALF_KEY });
            let py = rules.difference(rules.product(p.v, rules.of_count(env.height)), Scalar { key: HALF_KEY });
            &&& rules.between(color, color, rules.difference(px, rules.floor(px))) == color
            &&& rules.between(color, color, rules.difference(py, rules.floor(py))) == color
        }),
    ensures
        rules.panorama_radiance(env, p) == rules.scaled(color, env.intensity),
{
    assert forall|x: int, y: int| #[trigger] env.pixel(x, y) == color by {
        let row = if y < 0 {
            0
        } else if y < env.height {
            y
        } else {
            env.height - 1
        };
        let column = x % (env.width as int);
        assert(0 <= row * env.width + column < env.width * env.height) by (nonlinear_arith)
            requires
                0 <= row < env.height,
                0 <= column < env.width,
        ;
    }
}

/// In the middle of a pixel an environment has the color of that pixel, times its
/// intensity: columns run to the right and rows down.
pub proof fn law_pixel_centers_show_pixels(rules: ArithRules, env: EnvLightView, p: PanoramaPoint, x: i32, y: i32)
    requires
        rules.keeps_zeros(),
        rules.keeps_ones(),
        rules.keeps_selves(),
        0 <= x < env.width,
        0 <= y < env.height,
        env.pixel(x as int, y as int).is_finite(),
        env.pixel(x + 1, y as int).is_finite(),
        env.pixel(x as int, y + 1).is_finite(),
        env.pixel(x + 1, y + 1).is_finite(),
        ({
            let px = rules.difference(rules.product(p.u, rules.of_count(env.width)), Scalar { key: HALF_KEY });
            let py = rules.difference(rules.product(p.v, rules.of_count(env.height)), Scalar { key: HALF_KEY });
            &&& px.is_finite() && rules.floor(px) == px && rules.to_index(px) == x
            &&& py.is_finite() && rules.floor(py) == py && rules.to_index(py) == y
        }),
    ensures
        rules.panorama_radiance(env, p) == rules.scaled(env.pixels[y * env.width + x], env.intensity),
{
    vstd::arithmetic::div_mod::lemma_small_mod(x as nat, env.width as nat);
    let a = env.pixel(x as int, y as int);
    let b = env.pixel(x + 1, y as int);
    let c = env.pixel(x as int, y + 1);
    let d = env.pixel(x + 1, y + 1);
    let top = rules.between(a, b, Scalar::zero());
    let bottom = rules.between(c, d, Scalar::zero());
    assert(rules.difference(Scalar::one(), Scalar::zero()) == Scalar::one());
    assert(top == a);
    assert(bottom == c);
    assert(rules.between(top, bottom, Scalar::zero()) == a);
}

/// Only an environment has light to escape to.
pub proof fn law_only_environments_are_seen(rules: ArithRules, light: Light, dir: Point3)
    requires
        !(light is Environment),
    ensures
        rules.background(light, dir) == black(),
        rules.escape_pdf(light, dir) == Scalar::zero(),
{
}

/// A point light is where it is: a sample looks from the point toward the light, and
/// the distance along the sample leads there. Its light, over the sphere around it,
/// is what it sends out, but for the least sphere.
pub proof fn law_point_light_falls_with_the_square(
    rules: ArithRules,
    light: Light,
    position: Point3,
    direction: Point3,
    color: Color,
    intensity: Scalar,
    x: Point3,
    rng: Stream,
    textures: Seq<Texture>,
)
    requires
        light == (Light::Point { position, color, intensity }) || light == (Light::Spot {
            position,
            direction,
            color,
            intensity,
        }),
        ({
            let to = rules.minus(position, x);
            let d2 = rules.dot(to, to);
            let sphere = rules.product(
                Scalar { key: FOUR_PI_KEY },
                d2.max(Scalar { key: POINT_LIGHT_MIN_DIST2_KEY }),
            );
            &&& rules.scaled(rules.shrunk(to, rules.root(d2)), rules.root(d2)) == to
            &&& rules.product(rules.root(d2), rules.root(d2)) == d2
            &&& rules.undoes_parts(color, intensity, sphere)
        }),
    ensures
        ({
            let to = rules.minus(position, x);
            let d2 = rules.dot(to, to);
            rules.light_sample(light, x, rng, textures) is None <==> d2.le(Scalar::zero())
        }),
        rules.light_sample(light, x, rng, textures) matches Some(s) ==> {
            let d2 = rules.product(s.distance, s.distance);
            let sphere = rules.product(
                Scalar { key: FOUR_PI_KEY },
                d2.max(Scalar { key: POINT_LIGHT_MIN_DIST2_KEY }),
            );
            &&& rules.scaled(s.wi, s.distance) == rules.minus(position, x)
            &&& d2 == rules.dot(rules.minus(position, x), rules.minus(position, x))
            &&& rules.scaled(s.li, sphere) == rules.scaled(color, intensity)
            &&& s.pdf == Scalar::one()
        },
{
}

/// A directional light comes from the other side of where it goes, from no place,
/// and as bright everywhere.
pub proof fn law_directional_light_is_everywhere_alike(
    rules: ArithRules,
    direction: Point3,
    color: Color,
    intensity: Scalar,
    x: Point3,
    y: Point3,
    rng: Stream,
    textures: Seq<Texture>,
)
    requires
        direction.is_finite(),
    ensures
        rules.light_sample(Light::Directional { direction, color, intensity }, x, rng, textures)
            == rules.light_sample(Light::Directional { direction, color, intensity }, y, rng, textures),
        rules.light_sample(Light::Directional { direction, color, intensity }, x, rng, textures) matches Some(s) && {
            &&& s.wi.negated() == direction
            &&& s.li == rules.scaled(color, intensity)
            &&& !s.distance.is_finite()
            &&& s.pdf == Scalar::one()
        },
{
}

/// A sample of an area light looks at a point of the light, sees what is emitted
/// there, and comes only from the side that the light faces. Its density, times the
/// cosine at the light, is that over the area, times the squared distance.
pub proof fn law_area_sample_looks_at_the_light(
    rules: ArithRules,
    mesh: Arc<MeshEmitter>,
    x: Point3,
    rng: Stream,
    textures: Seq<Texture>,
)
    requires
        ({
            let g = rules.geom_sample(mesh@, rng.value(), rng.next().value(), rng.next().next().value());
            let to = rules.minus(g.p, x);
            let d2 = rules.dot(to, to);
            let wi = rules.shrunk(to, rules.root(d2));
            let cos_l = rules.dot(g.normal, wi.negated());
            &&& rules.scaled(wi, rules.root(d2)) == to
            &&& rules.product(rules.root(d2), rules.root(d2)) == d2
            &&& rules.product(rules.quotient(rules.product(g.pdf_area, d2), cos_l), cos_l) == rules.product(
                g.pdf_area,
                d2,
            )
        }),
    ensures
        rules.light_sample(Light::Area(mesh), x, rng, textures) matches Some(s) ==> {
            let g = rules.geom_sample(mesh@, rng.value(), rng.next().value(), rng.next().next().value());
            let cos_l = rules.dot(g.normal, s.wi.negated());
            &&& rules.scaled(s.wi, s.distance) == rules.minus(g.p, x)
            &&& s.li == rules.emitted(mesh@, g, textures)
            &&& !cos_l.le(Scalar::zero())
            &&& !s.pdf.le(Scalar::zero())
            &&& rules.product(s.pdf, cos_l) == rules.product(g.pdf_area, rules.product(s.distance, s.distance))
        },
{
}

/// Pixels of a panorama are sampled by how bright they are and how much of the
/// sphere they cover: black ones not at all, those of one row by their luminance.
pub proof fn law_panorama_is_sampled_by_brightness(
    rules: ArithRules,
    pixels: Seq<Color>,
    width: int,
    height: int,
    i: int,
    j: int,
)
    requires
        rules.keeps_zeros(),
        rules.orders_products(),
        width > 0,
        i / width == j / width,
        rules.row_sine((i / width) as usize, height as usize).is_finite(),
        Scalar::zero().le(rules.row_sine((i / width) as usize, height as usize)),
        rules.luminance(pixels[i]).is_finite(),
        rules.luminance(pixels[j]).is_finite(),
    ensures
        rules.luminance(pixels[i]) == Scalar::zero() ==> rules.panorama_weight(pixels, width, height, i)
            == Scalar::zero(),
        rules.luminance(pixels[i]).le(rules.luminance(pixels[j])) ==> rules.panorama_weight(pixels, width, height, i).le(
            rules.panorama_weight(pixels, width, height, j),
        ),
{
}

/// The rows of a panorama lie between the poles in equal steps: the angle of a row,
/// once for every row, is half a turn for every row above it and a half of one for
/// its own middle, wherever dividing by the height can be undone.
pub proof fn law_rows_lie_between_the_poles(rules: ArithRules, v: usize, height: usize)
    requires
        ({
            let down = rules.product(
                Scalar { key: PI_KEY },
                rules.sum(rules.of_count(v), Scalar { key: HALF_KEY }),
            );
            rules.product(rules.quotient(down, rules.of_count(height)), rules.of_count(height)) == down
        }),
    ensures
        exists|angle: Scalar|
            #![trigger rules.sine(angle)]
            rules.row_sine(v, height) == rules.sine(angle) && rules.product(angle, rules.of_count(height))
                == rules.product(Scalar { key: PI_KEY }, rules.sum(rules.of_count(v), Scalar { key: HALF_KEY })),
{
    let down = rules.product(Scalar { key: PI_KEY }, rules.sum(rules.of_count(v), Scalar { key: HALF_KEY }));
    let angle = rules.quotient(down, rules.of_count(height));
    assert(rules.row_sine(v, height) == rules.sine(angle));
}

/// The density at which an area light samples a point, times its area as it is seen
/// at a cosine, is the squared distance, wherever dividing can be undone. Nothing is
/// sampled from behind, and only area lights have a surface.
pub proof fn law_surface_density_follows_the_distance(rules: ArithRules, light: Light, dist2: Scalar, cos_l: Scalar)
    requires
        light matches Light::Area(mesh) ==> {
            let seen = rules.product(mesh@.total_area, cos_l);
            rules.product(rules.quotient(dist2, seen), seen) == dist2
        },
    ensures
        light matches Light::Area(mesh) ==> (Scalar::zero().lt(cos_l) ==> rules.product(
            rules.surface_pdf(light, dist2, cos_l),
            rules.product(mesh@.total_area, cos_l),
        ) == dist2),
        cos_l.le(Scalar::zero()) ==> rules.surface_pdf(light, dist2, cos_l) == Scalar::zero(),
        !(light is Area) ==> rules.surface_pdf(light, dist2, cos_l) == Scalar::zero(),
{
}

/// A light that is away from a point and faces it is sampled there: a point light
/// always, an area light wherever the picked place faces the point and has some
/// density.
pub proof fn law_lights_in_view_are_sampled(
    rules: ArithRules,
    position: Point3,
    color: Color,
    intensity: Scalar,
    mesh: Arc<MeshEmitter>,
    x: Point3,
    rng: Stream,
    textures: Seq<Texture>,
)
    ensures
        Scalar::zero().lt(rules.dot(rules.minus(position, x), rules.minus(position, x))) ==> rules.light_sample(
            Light::Point { position, color, intensity },
            x,
            rng,
            textures,
        ) is Some,
        ({
            let g = rules.geom_sample(mesh@, rng.value(), rng.next().value(), rng.next().next().value());
            let to = rules.minus(g.p, x);
            let d2 = rules.dot(to, to);
            let facing = rules.dot(g.normal, rules.shrunk(to, rules.root(d2)).negated());
            &&& Scalar::zero().lt(d2)
            &&& Scalar::zero().lt(facing)
            &&& Scalar::zero().lt(rules.quotient(rules.product(g.pdf_area, d2), facing))
        }) ==> rules.light_sample(Light::Area(mesh), x, rng, textures) is Some,
{
}

} // verus!
