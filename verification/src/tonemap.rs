//! From gathered radiance to bytes on a screen.
use vstd::prelude::*;
use crate::arith::{scaled, Arith, ArithRules};
use crate::import::BYTE_MAX_KEY;
use crate::scalar::Scalar;
use crate::scene::Color;
use crate::tracer::config::Pixel;

verus! {

/// Key of the reciprocal of the screen's gamma.
pub const INV_GAMMA_KEY: i32 = 0x3ee8_ba2e;

/// Keys of the five numbers of the ACES fit.
pub const ACES_A_KEY: i32 = 0x4020_a3d7;

pub const ACES_B_KEY: i32 = 0x3cf5_c28f;

pub const ACES_C_KEY: i32 = 0x401b_851f;

pub const ACES_D_KEY: i32 = 0x3f17_0a3d;

pub const ACES_E_KEY: i32 = 0x3e0f_5c29;

/// How radiance is squeezed into what a screen can show.
#[derive(Clone, Copy, PartialEq, Eq, Structural, Debug)]
pub enum TonemapOperator {
    Reinhard,
    Aces,
}

/// A pixel of a screen.
#[derive(Clone, Copy, PartialEq, Eq, Structural, Debug)]
pub struct Rgba {
    pub r: u8,
    pub g: u8,
    pub b: u8,
    pub a: u8,
}

/// A whole number as a byte, the greatest one if it is too great.
#[verifier::allow_in_spec]
pub fn to_byte(n: u32) -> u8
    returns
        (if n < 256 { n as u8 } else { 255u8 }),
{
    if n < 256 {
        n as u8
    } else {
        255
    }
}

impl ArithRules {
    /// A channel, squeezed.
    pub open spec fn squeezed(self, v: Scalar, operator: TonemapOperator) -> Scalar {
        match operator {
            TonemapOperator::Reinhard => self.quotient(v, self.sum(v, Scalar::one())),
            TonemapOperator::Aces => self.quotient(
                self.product(v, self.sum(self.product(Scalar { key: ACES_A_KEY }, v), Scalar { key: ACES_B_KEY })),
                self.sum(
                    self.product(v, self.sum(self.product(Scalar { key: ACES_C_KEY }, v), Scalar { key: ACES_D_KEY })),
                    Scalar { key: ACES_E_KEY },
                ),
            ),
        }
    }

    /// A number from 0 to 1 as a byte.
    pub open spec fn unit_byte(self, v: Scalar) -> u8 {
        to_byte(self.to_natural(self.product(v, Scalar { key: BYTE_MAX_KEY })))
    }

    /// A squeezed channel as a byte, for the gamma of the screen.
    pub open spec fn screen_byte(self, v: Scalar) -> u8 {
        self.unit_byte(self.power(v, Scalar { key: INV_GAMMA_KEY }).clamped(Scalar::zero(), Scalar::one()))
    }

    /// A pixel of the picture: the mean of its samples, exposed and squeezed; black
    /// without samples.
    pub open spec fn shown_pixel(self, pixel: Pixel, exposure: Scalar, operator: TonemapOperator) -> Rgba {
        if pixel.samples == 0 {
            Rgba { r: 0, g: 0, b: 0, a: 255 }
        } else {
            let mean = self.scaled(
                pixel.accumulated_radiance,
                self.quotient(Scalar::one(), self.of_count(pixel.samples as usize)),
            );
            let c = self.scaled(mean, exposure);
            Rgba {
                r: self.screen_byte(self.squeezed(c.x, operator)),
                g: self.screen_byte(self.squeezed(c.y, operator)),
                b: self.screen_byte(self.squeezed(c.z, operator)),
                a: 255,
            }
        }
    }

    /// A channel of a probe as a byte.
    pub open spec fn probe_byte(self, v: Scalar, exposure: Scalar, operator: TonemapOperator) -> u8 {
        let c = self.squeezed(self.product(v, exposure), operator);
        self.unit_byte(self.power(c.clamped(Scalar::zero(), Scalar::one()), Scalar { key: INV_GAMMA_KEY }))
    }

    /// A pixel of a probe.
    pub open spec fn shown_probe(self, c: Color, exposure: Scalar, operator: TonemapOperator) -> Rgba {
        Rgba {
            r: self.probe_byte(c.x, exposure, operator),
            g: self.probe_byte(c.y, exposure, operator),
            b: self.probe_byte(c.z, exposure, operator),
            a: 255,
        }
    }
}

/// A channel, squeezed.
fn squeezed<M: Arith>(math: &M, v: Scalar, operator: TonemapOperator) -> (r: Scalar)
    ensures
        forall|rules: ArithRules| #[trigger] rules.describe(*math) ==> r == rules.squeezed(v, operator),
{
    match operator {
        TonemapOperator::Reinhard => math.quotient(v, math.sum(v, Scalar::one())),
        TonemapOperator::Aces => math.quotient(
            math.product(v, math.sum(math.product(Scalar { key: ACES_A_KEY }, v), Scalar { key: ACES_B_KEY })),
            math.sum(
                math.product(v, math.sum(math.product(Scalar { key: ACES_C_KEY }, v), Scalar { key: ACES_D_KEY })),
                Scalar { key: ACES_E_KEY },
            ),
        ),
    }
}

/// A number from 0 to 1 as a byte.
fn unit_byte<M: Arith>(math: &M, v: Scalar) -> (r: u8)
    ensures
        forall|rules: ArithRules| #[trigger] rules.describe(*math) ==> r == rules.unit_byte(v),
{
    to_byte(math.to_natural(math.product(v, Scalar { key: BYTE_MAX_KEY })))
}

/// A squeezed channel as a byte, for the gamma of the screen.
fn screen_byte<M: Arith>(math: &M, v: Scalar) -> (r: u8)
    ensures
        forall|rules: ArithRules| #[trigger] rules.describe(*math) ==> r == rules.screen_byte(v),
{
    unit_byte(math, math.power(v, Scalar { key: INV_GAMMA_KEY }).clamped(Scalar::zero(), Scalar::one()))
}

/// A pixel of the picture: the mean of its samples, exposed and squeezed; black
/// without samples.
pub fn shown_pixel<M: Arith>(math: &M, pixel: Pixel, exposure: Scalar, operator: TonemapOperator) -> (r: Rgba)
    ensures
        forall|rules: ArithRules| #[trigger] rules.describe(*math) ==> r == rules.shown_pixel(pixel, exposure, operator),
{
    if pixel.samples == 0 {
        Rgba { r: 0, g: 0, b: 0, a: 255 }
    } else {
        let mean = scaled(
            math,
            pixel.accumulated_radiance,
            math.quotient(Scalar::one(), math.of_count(pixel.samples as usize)),
        );
        let c = scaled(math, mean, exposure);
        Rgba {
            r: screen_byte(math, squeezed(math, c.x, operator)),
            g: screen_byte(math, squeezed(math, c.y, operator)),
            b: screen_byte(math, squeezed(math, c.z, operator)),
            a: 255,
        }
    }
}

/// A channel of a probe as a byte.
fn probe_byte<M: Arith>(math: &M, v: Scalar, exposure: Scalar, operator: TonemapOperator) -> (r: u8)
    ensures
        forall|rules: ArithRules| #[trigger] rules.describe(*math) ==> r == rules.probe_byte(v, exposure, operator),
{
    let c = squeezed(math, math.product(v, exposure), operator);
    unit_byte(math, math.power(c.clamped(Scalar::zero(), Scalar::one()), Scalar { key: INV_GAMMA_KEY }))
}

/// A pixel of a probe.
pub fn shown_probe<M: Arith>(math: &M, c: Color, exposure: Scalar, operator: TonemapOperator) -> (r: Rgba)
    ensures
        forall|rules: ArithRules| #[trigger] rules.describe(*math) ==> r == rules.shown_probe(c, exposure, operator),
{
    Rgba {
        r: probe_byte(math, c.x, exposure, operator),
        g: probe_byte(math, c.y, exposure, operator),
        b: probe_byte(math, c.z, exposure, operator),
        a: 255,
    }
}

/// Whether the four bytes of a pixel are these.
pub open spec fn holds(bytes: Seq<u8>, i: int, c: Rgba) -> bool {
    bytes[4 * i] == c.r && bytes[4 * i + 1] == c.g && bytes[4 * i + 2] == c.b && bytes[4 * i + 3] == c.a
}

/// Number of pixels that a picture and the bytes for it both have.
pub open spec fn shared_pixels(pixels: int, bytes: int) -> int {
    if pixels < bytes / 4 {
        pixels
    } else {
        bytes / 4
    }
}

/// Writes the picture as bytes, four per pixel, as far as there are pixels and
/// whole pixels of bytes. The bytes after that stay as they are.
pub fn tonemap_and_convert<M: Arith>(
    math: &M,
    pixels: &Vec<Pixel>,
    exposure: Scalar,
    operator: TonemapOperator,
    output_rgba: &mut Vec<u8>,
)
    ensures
        final(output_rgba).len() == old(output_rgba).len(),
        forall|rules: ArithRules, i: int|
            #![trigger rules.describe(*math), pixels@[i]]
            rules.describe(*math) && 0 <= i < shared_pixels(pixels.len() as int, old(output_rgba).len() as int)
                ==> holds(final(output_rgba)@, i, rules.shown_pixel(pixels@[i], exposure, operator)),
        forall|k: int|
            4 * shared_pixels(pixels.len() as int, old(output_rgba).len() as int) <= k < old(output_rgba).len()
                ==> #[trigger] final(output_rgba)@[k] == old(output_rgba)@[k],
{
    let whole: usize = output_rgba.len() / 4;
    let n: usize = if pixels.len() < whole { pixels.len() } else { whole };
    let mut i: usize = 0;
    while i < n
        invariant
            i <= n <= pixels.len(),
            4 * n <= output_rgba.len(),
            output_rgba.len() == old(output_rgba).len(),
            forall|rules: ArithRules, j: int|
                #![trigger rules.describe(*math), pixels@[j]]
                rules.describe(*math) && 0 <= j < i ==> holds(
                    output_rgba@,
                    j,
                    rules.shown_pixel(pixels@[j], exposure, operator),
                ),
            forall|k: int|
                4 * i <= k < output_rgba.len() ==> #[trigger] output_rgba@[k] == old(output_rgba)@[k],
        decreases n - i,
    {
        let c = shown_pixel(math, pixels[i], exposure, operator);
        output_rgba.set(4 * i, c.r);
        output_rgba.set(4 * i + 1, c.g);
        output_rgba.set(4 * i + 2, c.b);
        output_rgba.set(4 * i + 3, c.a);
        i = i + 1;
    }
}

/// A probe as bytes, four per pixel.
pub fn convert_probe<M: Arith>(math: &M, colors: &Vec<Color>, exposure: Scalar, operator: TonemapOperator) -> (r: Vec<u8>)
    requires
        4 * colors.len() <= usize::MAX,
    ensures
        r.len() == 4 * colors.len(),
        forall|rules: ArithRules, i: int|
            #![trigger rules.describe(*math), colors@[i]]
            rules.describe(*math) && 0 <= i < colors.len() ==> holds(
                r@,
                i,
                rules.shown_probe(colors@[i], exposure, operator),
            ),
{
    let mut out: Vec<u8> = Vec::new();
    let mut i: usize = 0;
    while i < colors.len()
        invariant
            i <= colors.len(),
            out.len() == 4 * i,
            forall|rules: ArithRules, j: int|
                #![trigger rules.describe(*math), colors@[j]]
                rules.describe(*math) && 0 <= j < i ==> holds(
                    out@,
                    j,
                    rules.shown_probe(colors@[j], exposure, operator),
                ),
        decreases colors.len() - i,
    {
        let c = shown_probe(math, colors[i], exposure, operator);
        out.push(c.r);
        out.push(c.g);
        out.push(c.b);
        out.push(c.a);
        i = i + 1;
    }
    out
}

/// The picture does not depend on how samples add up, only on their mean: pixels
/// whose means agree look the same.
pub proof fn law_picture_shows_the_mean(
    rules: ArithRules,
    a: Pixel,
    b: Pixel,
    exposure: Scalar,
    operator: TonemapOperator,
)
    requires
        a.samples > 0,
        b.samples > 0,
        rules.scaled(a.accumulated_radiance, rules.quotient(Scalar::one(), rules.of_count(a.samples as usize)))
            == rules.scaled(
            b.accumulated_radiance,
            rules.quotient(Scalar::one(), rules.of_count(b.samples as usize)),
        ),
    ensures
        rules.shown_pixel(a, exposure, operator) == rules.shown_pixel(b, exposure, operator),
{
}

/// Every pixel is opaque, and one without samples is black.
pub proof fn law_pixels_are_opaque(rules: ArithRules, pixel: Pixel, exposure: Scalar, operator: TonemapOperator)
    ensures
        rules.shown_pixel(pixel, exposure, operator).a == 255,
        pixel.samples == 0 ==> rules.shown_pixel(pixel, exposure, operator) == (Rgba { r: 0, g: 0, b: 0, a: 255 }),
{
}

/// Darkness stays dark under both operators, and Reinhard's squeezes radiance to its
/// part in itself and one: times both together it is the radiance again.
pub proof fn law_operators_squeeze(rules: ArithRules, v: Scalar)
    requires
        rules.keeps_zeros(),
        v.is_finite(),
        rules.product(rules.quotient(v, rules.sum(v, Scalar::one())), rules.sum(v, Scalar::one())) == v,
        ({
            let over = rules.product(v, rules.sum(rules.product(Scalar { key: ACES_A_KEY }, v), Scalar { key: ACES_B_KEY }));
            let under = rules.sum(
                rules.product(v, rules.sum(rules.product(Scalar { key: ACES_C_KEY }, v), Scalar { key: ACES_D_KEY })),
                Scalar { key: ACES_E_KEY },
            );
            rules.product(rules.quotient(over, under), under) == over
        }),
    ensures
        rules.squeezed(Scalar::zero(), TonemapOperator::Reinhard) == Scalar::zero(),
        rules.squeezed(Scalar::zero(), TonemapOperator::Aces) == Scalar::zero(),
        rules.product(rules.squeezed(v, TonemapOperator::Reinhard), rules.sum(v, Scalar::one())) == v,
        rules.product(
            rules.squeezed(v, TonemapOperator::Aces),
            rules.sum(
                rules.product(v, rules.sum(rules.product(Scalar { key: ACES_C_KEY }, v), Scalar { key: ACES_D_KEY })),
                Scalar { key: ACES_E_KEY },
            ),
        ) == rules.product(v, rules.sum(rules.product(Scalar { key: ACES_A_KEY }, v), Scalar { key: ACES_B_KEY })),
{
    let o = Scalar::zero();
    assert(rules.sum(o, Scalar::one()) == Scalar::one());
    assert(rules.quotient(o, Scalar::one()) == o);
    assert(rules.product(Scalar { key: ACES_A_KEY }, o) == o);
    assert(rules.product(Scalar { key: ACES_C_KEY }, o) == o);
    assert(rules.sum(o, Scalar { key: ACES_B_KEY }) == Scalar { key: ACES_B_KEY });
    assert(rules.sum(o, Scalar { key: ACES_D_KEY }) == Scalar { key: ACES_D_KEY });
    assert(rules.product(o, Scalar { key: ACES_B_KEY }) == o);
    assert(rules.product(o, Scalar { key: ACES_D_KEY }) == o);
    assert(rules.sum(o, Scalar { key: ACES_E_KEY }) == Scalar { key: ACES_E_KEY });
    assert(rules.quotient(o, Scalar { key: ACES_E_KEY }) == o);
}

/// What of a channel is shown does not depend on the others, and all three are shown
/// alike: pixels whose channels are exchanged show exchanged bytes.
pub proof fn law_channels_are_shown_apart(
    rules: ArithRules,
    pixel: Pixel,
    other: Pixel,
    exposure: Scalar,
    operator: TonemapOperator,
)
    requires
        pixel.samples == other.samples,
        other.accumulated_radiance == (Color {
            x: pixel.accumulated_radiance.y,
            y: pixel.accumulated_radiance.z,
            z: pixel.accumulated_radiance.x,
        }),
    ensures
        rules.shown_pixel(other, exposure, operator).r == rules.shown_pixel(pixel, exposure, operator).g,
        rules.shown_pixel(other, exposure, operator).g == rules.shown_pixel(pixel, exposure, operator).b,
        rules.shown_pixel(other, exposure, operator).b == rules.shown_pixel(pixel, exposure, operator).r,
        ({
            let c = pixel.accumulated_radiance;
            let d = other.accumulated_radiance;
            &&& rules.shown_probe(d, exposure, operator).r == rules.shown_probe(c, exposure, operator).g
            &&& rules.shown_probe(d, exposure, operator).g == rules.shown_probe(c, exposure, operator).b
            &&& rules.shown_probe(d, exposure, operator).b == rules.shown_probe(c, exposure, operator).r
            &&& rules.shown_probe(c, exposure, operator).a == 255
        }),
{
}

/// A channel shows only what is in it: where two pixels agree in a channel, so do
/// their bytes.
pub proof fn law_byte_shows_its_channel(
    rules: ArithRules,
    a: Pixel,
    b: Pixel,
    exposure: Scalar,
    operator: TonemapOperator,
)
    requires
        a.samples == b.samples,
    ensures
        a.accumulated_radiance.x == b.accumulated_radiance.x ==> rules.shown_pixel(a, exposure, operator).r
            == rules.shown_pixel(b, exposure, operator).r,
        a.accumulated_radiance.y == b.accumulated_radiance.y ==> rules.shown_pixel(a, exposure, operator).g
            == rules.shown_pixel(b, exposure, operator).g,
        a.accumulated_radiance.z == b.accumulated_radiance.z ==> rules.shown_pixel(a, exposure, operator).b
            == rules.shown_pixel(b, exposure, operator).b,
        a.accumulated_radiance.x == b.accumulated_radiance.x ==> rules.shown_probe(
            a.accumulated_radiance,
            exposure,
            operator,
        ).r == rules.shown_probe(b.accumulated_radiance, exposure, operator).r,
{
}

/// Brighter values show no darker bytes, nothing shows as nothing, and one or more as
/// full, wherever powers keep the order and leave nothing and one alone, and whole
/// parts keep the order.
pub proof fn law_bytes_grow_with_brightness(rules: ArithRules, dim: Scalar, bright: Scalar)
    requires
        rules.keeps_ones(),
        rules.keeps_zeros(),
        rules.orders_products(),
        Scalar::zero().le(dim) && dim.le(bright) && bright.is_finite(),
        forall|a: Scalar, b: Scalar|
            #![trigger rules.power(a, Scalar { key: INV_GAMMA_KEY }), rules.power(b, Scalar { key: INV_GAMMA_KEY })]
            Scalar::zero().le(a) && a.le(b) ==> rules.power(a, Scalar { key: INV_GAMMA_KEY }).le(
                rules.power(b, Scalar { key: INV_GAMMA_KEY }),
            ),
        rules.power(Scalar::zero(), Scalar { key: INV_GAMMA_KEY }) == Scalar::zero(),
        rules.power(Scalar::one(), Scalar { key: INV_GAMMA_KEY }) == Scalar::one(),
        forall|a: Scalar, b: Scalar|
            #![trigger rules.to_natural(a), rules.to_natural(b)]
            a.le(b) ==> rules.to_natural(a) <= rules.to_natural(b),
        rules.to_natural(Scalar::zero()) == 0,
        rules.to_natural(Scalar { key: BYTE_MAX_KEY }) == 255,
    ensures
        rules.screen_byte(dim) <= rules.screen_byte(bright),
        rules.screen_byte(Scalar::zero()) == 0,
        Scalar::one().le(bright) ==> rules.screen_byte(bright) == 255,
{
    let g = Scalar { key: INV_GAMMA_KEY };
    let full = Scalar { key: BYTE_MAX_KEY };
    let a = rules.power(dim, g).clamped(Scalar::zero(), Scalar::one());
    let b = rules.power(bright, g).clamped(Scalar::zero(), Scalar::one());
    assert(rules.power(Scalar::zero(), g).le(rules.power(dim, g)));
    assert(a.le(b) && a.is_finite() && b.is_finite());
    assert(rules.product(a, full).le(rules.product(b, full)));
    assert(rules.product(Scalar::zero(), full) == Scalar::zero());
    assert(rules.product(Scalar::one(), full) == full);
    if Scalar::one().le(bright) {
        assert(rules.power(Scalar::one(), g).le(rules.power(bright, g)));
        assert(b == Scalar::one());
    }
}

/// Exposure scales what is shown: a pixel whose samples are brighter by a factor looks
/// as under an exposure greater by it, wherever factors may be taken in any order.
pub proof fn law_exposure_scales_radiance(
    rules: ArithRules,
    a: Pixel,
    b: Pixel,
    exposure_a: Scalar,
    exposure_b: Scalar,
    operator: TonemapOperator,
)
    requires
        a.samples > 0,
        b.samples > 0,
        ({
            let ra = rules.quotient(Scalar::one(), rules.of_count(a.samples as usize));
            let rb = rules.quotient(Scalar::one(), rules.of_count(b.samples as usize));
            rules.scaled(rules.scaled(a.accumulated_radiance, ra), exposure_a) == rules.scaled(
                rules.scaled(b.accumulated_radiance, rb),
                exposure_b,
            )
        }),
    ensures
        rules.shown_pixel(a, exposure_a, operator) == rules.shown_pixel(b, exposure_b, operator),
{
}

/// A pixel of one sample under an exposure of one shows that sample, squeezed.
pub proof fn law_single_sample_is_shown(rules: ArithRules, pixel: Pixel, operator: TonemapOperator)
    requires
        rules.keeps_ones(),
        pixel.samples == 1,
        rules.of_count(1) == Scalar::one(),
        pixel.accumulated_radiance.is_finite(),
    ensures
        ({
            let c = pixel.accumulated_radiance;
            let shown = rules.shown_pixel(pixel, Scalar::one(), operator);
            &&& shown.r == rules.screen_byte(rules.squeezed(c.x, operator))
            &&& shown.g == rules.screen_byte(rules.squeezed(c.y, operator))
            &&& shown.b == rules.screen_byte(rules.squeezed(c.z, operator))
        }),
{
    assert(rules.quotient(Scalar::one(), Scalar::one()) == Scalar::one());
}

/// A probe is exposed as a picture is: shown at an exposure, it looks as the exposed
/// radiance does by itself, and what is black stays black at every exposure.
pub proof fn law_probe_is_exposed(rules: ArithRules, c: Color, exposure: Scalar, operator: TonemapOperator)
    requires
        rules.keeps_ones(),
        rules.keeps_zeros(),
        rules.scaled(c, exposure).ordered(),
        exposure.is_finite(),
    ensures
        rules.shown_probe(c, exposure, operator) == rules.shown_probe(rules.scaled(c, exposure), Scalar::one(), operator),
        rules.shown_probe(Color::origin(), exposure, operator) == rules.shown_probe(
            Color::origin(),
            Scalar::one(),
            operator,
        ),
{
    assert(rules.product(Scalar::zero(), exposure) == Scalar::zero());
    assert(rules.product(Scalar::zero(), Scalar::one()) == Scalar::zero());
}

/// A brighter channel of a probe shows no darker byte, nothing shows as nothing and
/// one or more as full, wherever squeezing and powers keep the order, and leave
/// nothing and one alone, and whole parts keep the order.
pub proof fn law_probe_bytes_grow_with_brightness(
    rules: ArithRules,
    dim: Scalar,
    bright: Scalar,
    exposure: Scalar,
    operator: TonemapOperator,
)
    requires
        rules.keeps_ones(),
        rules.keeps_zeros(),
        rules.orders_products(),
        ({
            let a = rules.squeezed(rules.product(dim, exposure), operator);
            let b = rules.squeezed(rules.product(bright, exposure), operator);
            Scalar::zero().le(a) && a.le(b)
        }),
        forall|a: Scalar, b: Scalar|
            #![trigger rules.power(a, Scalar { key: INV_GAMMA_KEY }), rules.power(b, Scalar { key: INV_GAMMA_KEY })]
            Scalar::zero().le(a) && a.le(b) ==> rules.power(a, Scalar { key: INV_GAMMA_KEY }).le(
                rules.power(b, Scalar { key: INV_GAMMA_KEY }),
            ),
        rules.power(Scalar::zero(), Scalar { key: INV_GAMMA_KEY }) == Scalar::zero(),
        rules.power(Scalar::one(), Scalar { key: INV_GAMMA_KEY }) == Scalar::one(),
        forall|a: Scalar, b: Scalar|
            #![trigger rules.to_natural(a), rules.to_natural(b)]
            a.le(b) ==> rules.to_natural(a) <= rules.to_natural(b),
        rules.to_natural(Scalar::zero()) == 0,
        rules.to_natural(Scalar { key: BYTE_MAX_KEY }) == 255,
    ensures
        rules.probe_byte(dim, exposure, operator) <= rules.probe_byte(bright, exposure, operator),
        rules.squeezed(rules.product(dim, exposure), operator) == Scalar::zero() ==> rules.probe_byte(
            dim,
            exposure,
            operator,
        ) == 0,
        Scalar::one().le(rules.squeezed(rules.product(bright, exposure), operator)) ==> rules.probe_byte(
            bright,
            exposure,
            operator,
        ) == 255,
{
    let g = Scalar { key: INV_GAMMA_KEY };
    let full = Scalar { key: BYTE_MAX_KEY };
    let a = rules.squeezed(rules.product(dim, exposure), operator).clamped(Scalar::zero(), Scalar::one());
    let b = rules.squeezed(rules.product(bright, exposure), operator).clamped(Scalar::zero(), Scalar::one());
    assert(Scalar::zero().le(a) && a.le(b) && b.le(Scalar::one()));
    let p = rules.power(a, g);
    let q = rules.power(b, g);
    assert(rules.power(Scalar::zero(), g).le(p) && p.le(q) && q.le(rules.power(Scalar::one(), g)));
    assert(rules.product(p, full).le(rules.product(q, full)));
    assert(rules.product(Scalar::zero(), full) == Scalar::zero());
    assert(rules.product(Scalar::one(), full) == full);
    assert(rules.product(Scalar::zero(), full).le(rules.product(p, full)));
    assert(rules.product(q, full).le(rules.product(Scalar::one(), full)));
}

} // verus!
