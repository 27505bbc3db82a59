//! Lookups in textures.
use vstd::prelude::*;
use crate::arith::{law_between_has_ends, between, times, Arith, ArithRules};
use crate::scalar::{Point3, Scalar};
use crate::scene::{Color, Texture, Vec2};

verus! {

/// Two neighbouring pixels along an axis, and where between them a point lies.
#[derive(Clone, Copy, PartialEq, Eq, Structural, Debug)]
pub struct Stop {
    pub low: u32,
    pub high: u32,
    pub t: Scalar,
}

/// What a texture without pixels looks like.
#[verifier::allow_in_spec]
pub fn missing_color() -> Color
    returns
        (Point3 { x: Scalar::one(), y: Scalar::zero(), z: Scalar::one() }),
{
    Point3 { x: Scalar::one(), y: Scalar::zero(), z: Scalar::one() }
}

impl ArithRules {
    /// The pixels next to a coordinate along an axis of `size` pixels; coordinates
    /// repeat with period 1.
    pub open spec fn stop(self, c: Scalar, size: u32) -> Stop {
        let fraction = self.difference(c, self.floor(c));
        let x = self.product(fraction, self.difference(self.of_count(size as usize), Scalar::one()));
        let whole: u32 = self.to_natural(self.floor(x));
        let low: u32 = if whole < size {
            whole
        } else {
            (size - 1) as u32
        };
        let high: u32 = if low + 1 < size {
            (low + 1) as u32
        } else {
            low
        };
        Stop { low, high, t: self.difference(x, self.of_count(low as usize)) }
    }
}

/// The pixels next to a coordinate along an axis of `size` pixels; coordinates
/// repeat with period 1.
fn stop<M: Arith>(math: &M, c: Scalar, size: u32) -> (r: Stop)
    requires
        size > 0,
    ensures
        r.low <= r.high < size,
        forall|rules: ArithRules| #[trigger] rules.describe(*math) ==> r == rules.stop(c, size),
{
    let fraction = math.difference(c, math.floor(c));
    let x = math.product(fraction, math.difference(math.of_count(size as usize), Scalar::one()));
    let whole: u32 = math.to_natural(math.floor(x));
    let low: u32 = if whole < size {
        whole
    } else {
        (size - 1) as u32
    };
    let high: u32 = if low + 1 < size {
        (low + 1) as u32
    } else {
        low
    };
    Stop { low, high, t: math.difference(x, math.of_count(low as usize)) }
}

impl Texture {
    /// Whether every pixel is there, and their number fits an index.
    pub open spec fn is_complete(self) -> bool {
        self.width * self.height <= self.pixels@.len() && self.width * self.height <= u32::MAX
    }

    /// Whether every pixel is there, and their number fits an index.
    pub fn check_complete(&self) -> (r: bool)
        ensures
            r == self.is_complete(),
    {
        match self.width.checked_mul(self.height) {
            Some(n) => n as usize <= self.pixels.len(),
            None => false,
        }
    }

    /// The pixel of a column and a row.
    pub open spec fn pixel(self, x: u32, y: u32) -> Color {
        self.pixels@[y * self.width + x]
    }

    /// The pixel of a column and a row.
    fn get(&self, x: u32, y: u32) -> (r: Color)
        requires
            self.is_complete(),
            x < self.width,
            y < self.height,
        ensures
            r == self.pixel(x, y),
    {
        assert(y * self.width + x < self.width * self.height) by (nonlinear_arith)
            requires
                x < self.width,
                y < self.height,
        ;
        assert(0 <= y * self.width) by (nonlinear_arith);
        self.pixels[(y * self.width + x) as usize]
    }

    /// Bilinear interpolation between the pixels next to a point. Textures repeat
    /// with period 1; one without pixels is magenta.
    pub fn sample_bilinear<M: Arith>(&self, math: &M, uv: Vec2) -> (r: Color)
        requires
            self.is_complete(),
        ensures
            self.width == 0 || self.height == 0 ==> r == missing_color(),
            forall|rules: ArithRules| #[trigger] rules.describe(*math) ==> r == rules.bilinear(*self, uv),
    {
        if self.width == 0 || self.height == 0 {
            return missing_color();
        }
        let x = stop(math, uv.x, self.width);
        let y = stop(math, uv.y, self.height);
        let c00 = self.get(x.low, y.low);
        let c10 = self.get(x.high, y.low);
        let c01 = self.get(x.low, y.high);
        let c11 = self.get(x.high, y.high);
        between(math, between(math, c00, c10, x.t), between(math, c01, c11, x.t), y.t)
    }
}

impl ArithRules {
    /// Bilinear interpolation between the pixels next to a point.
    pub open spec fn bilinear(self, tex: Texture, uv: Vec2) -> Color {
        if tex.width == 0 || tex.height == 0 {
            missing_color()
        } else {
            let x = self.stop(uv.x, tex.width);
            let y = self.stop(uv.y, tex.height);
            self.between(
                self.between(tex.pixel(x.low, y.low), tex.pixel(x.high, y.low), x.t),
                self.between(tex.pixel(x.low, y.high), tex.pixel(x.high, y.high), x.t),
                y.t,
            )
        }
    }

    /// A color, modulated by the texture of an index if there is one.
    pub open spec fn modulated(self, textures: Seq<Texture>, index: Option<u32>, base: Color, uv: Vec2) -> Color {
        match index {
            Some(i) => if i < textures.len() {
                self.times(base, self.bilinear(textures[i as int], uv))
            } else {
                base
            },
            None => base,
        }
    }
}

/// Whether every texture is complete.
pub open spec fn are_complete(textures: Seq<Texture>) -> bool {
    forall|i: int| 0 <= i < textures.len() ==> (#[trigger] textures[i]).is_complete()
}

/// A color, modulated by the texture of an index if there is one.
pub fn modulate<M: Arith>(math: &M, textures: &Vec<Texture>, index: Option<u32>, base: Color, uv: Vec2) -> (r: Color)
    requires
        are_complete(textures@),
    ensures
        forall|rules: ArithRules| #[trigger]
            rules.describe(*math) ==> r == rules.modulated(textures@, index, base, uv),
{
    match index {
        Some(i) => {
            if (i as usize) < textures.len() {
                times(math, base, textures[i as usize].sample_bilinear(math, uv))
            } else {
                base
            }
        },
        None => base,
    }
}

/// The pixels that a lookup reads lie in the texture, next to each other or at
/// its edge.
pub proof fn law_lookup_stays_inside(rules: ArithRules, c: Scalar, size: u32)
    requires
        size > 0,
    ensures
        rules.stop(c, size).low <= rules.stop(c, size).high < size,
        rules.stop(c, size).high <= rules.stop(c, size).low + 1,
{
}

/// Whether two textures have the same size, and a channel of theirs is the same at
/// every pixel.
pub open spec fn share_channel(a: Texture, b: Texture, channel: usize) -> bool {
    &&& a.width == b.width
    &&& a.height == b.height
    &&& a.is_complete()
    &&& b.is_complete()
    &&& forall|i: int|
        0 <= i < a.width * a.height ==> (#[trigger] a.pixels@[i]).coord(channel) == b.pixels@[i].coord(channel)
}

/// Channels of a texture stay apart: a lookup in textures that share a channel gives
/// the same in that channel.
pub proof fn law_channels_stay_apart(rules: ArithRules, a: Texture, b: Texture, uv: Vec2, channel: usize)
    requires
        channel < 3,
        share_channel(a, b, channel),
    ensures
        rules.bilinear(a, uv).coord(channel) == rules.bilinear(b, uv).coord(channel),
{
    if a.width > 0 && a.height > 0 {
        let x = rules.stop(uv.x, a.width);
        let y = rules.stop(uv.y, a.height);
        lemma_pixel_inside(a, x.low, y.low);
        lemma_pixel_inside(a, x.high, y.low);
        lemma_pixel_inside(a, x.low, y.high);
        lemma_pixel_inside(a, x.high, y.high);
        assert(a.pixel(x.low, y.low).coord(channel) == b.pixel(x.low, y.low).coord(channel));
        assert(a.pixel(x.high, y.low).coord(channel) == b.pixel(x.high, y.low).coord(channel));
        assert(a.pixel(x.low, y.high).coord(channel) == b.pixel(x.low, y.high).coord(channel));
        assert(a.pixel(x.high, y.high).coord(channel) == b.pixel(x.high, y.high).coord(channel));
    }
}

proof fn lemma_pixel_inside(t: Texture, x: u32, y: u32)
    requires
        x < t.width,
        y < t.height,
    ensures
        0 <= y * t.width + x < t.width * t.height,
{
    assert(0 <= y * t.width + x < t.width * t.height) by (nonlinear_arith)
        requires
            x < t.width,
            y < t.height,
    ;
}

/// Whether a coordinate falls on a pixel of an axis.
pub open spec fn falls_on(rules: ArithRules, c: Scalar, size: u32, i: u32) -> bool {
    let along = rules.product(
        rules.difference(c, rules.floor(c)),
        rules.difference(rules.of_count(size as usize), Scalar::one()),
    );
    &&& i < size
    &&& rules.to_natural(rules.floor(along)) == i
    &&& along == rules.of_count(i as usize)
    &&& along.is_finite()
}

/// Where both coordinates fall on a pixel, a texture shows it: the first coordinate
/// runs along the row, the second down the rows.
pub proof fn law_texture_shows_its_pixels(rules: ArithRules, t: Texture, uv: Vec2, column: u32, row: u32)
    requires
        rules.keeps_ones(),
        rules.keeps_zeros(),
        rules.keeps_selves(),
        falls_on(rules, uv.x, t.width, column),
        falls_on(rules, uv.y, t.height, row),
        t.is_complete(),
        forall|i: int| 0 <= i < t.width * t.height ==> (#[trigger] t.pixels@[i]).is_finite(),
    ensures
        rules.bilinear(t, uv) == t.pixels@[row * t.width + column],
{
    let x = rules.stop(uv.x, t.width);
    let y = rules.stop(uv.y, t.height);
    lemma_pixel_inside(t, x.low, y.low);
    lemma_pixel_inside(t, x.high, y.low);
    lemma_pixel_inside(t, x.low, y.high);
    lemma_pixel_inside(t, x.high, y.high);
    assert(x.t == Scalar::zero() && y.t == Scalar::zero());
    law_between_has_ends(rules, t.pixel(x.low, y.low), t.pixel(x.high, y.low));
    law_between_has_ends(rules, t.pixel(x.low, y.high), t.pixel(x.high, y.high));
    law_between_has_ends(rules, t.pixel(x.low, y.low), t.pixel(x.low, y.high));
}

/// Textures repeat: coordinates with the same fraction look up the same.
pub proof fn law_textures_repeat(rules: ArithRules, t: Texture, a: Vec2, b: Vec2)
    requires
        rules.difference(a.x, rules.floor(a.x)) == rules.difference(b.x, rules.floor(b.x)),
        rules.difference(a.y, rules.floor(a.y)) == rules.difference(b.y, rules.floor(b.y)),
    ensures
        rules.bilinear(t, a) == rules.bilinear(t, b),
{
}

/// A texture modulates: where it is white the color stays, where it is black none of
/// it is left, and channels stay apart; without a texture the color stays.
pub proof fn law_texture_modulates(
    rules: ArithRules,
    textures: Seq<Texture>,
    index: Option<u32>,
    base: Color,
    other: Color,
    uv: Vec2,
)
    requires
        rules.keeps_ones(),
        rules.keeps_zeros(),
        base.is_finite(),
    ensures
        index is None || index->0 >= textures.len() ==> rules.modulated(textures, index, base, uv) == base,
        index matches Some(i) ==> i < textures.len() ==> {
            let seen = rules.bilinear(textures[i as int], uv);
            let shown = rules.modulated(textures, index, base, uv);
            &&& seen.x == Scalar::one() ==> shown.x == base.x
            &&& seen.y == Scalar::one() ==> shown.y == base.y
            &&& seen.z == Scalar::one() ==> shown.z == base.z
            &&& seen.x == Scalar::zero() ==> shown.x == Scalar::zero()
            &&& seen.y == Scalar::zero() ==> shown.y == Scalar::zero()
            &&& seen.z == Scalar::zero() ==> shown.z == Scalar::zero()
        },
        base.x == other.x ==> rules.modulated(textures, index, base, uv).x == rules.modulated(
            textures,
            index,
            other,
            uv,
        ).x,
        base.y == other.y ==> rules.modulated(textures, index, base, uv).y == rules.modulated(
            textures,
            index,
            other,
            uv,
        ).y,
        base.z == other.z ==> rules.modulated(textures, index, base, uv).z == rules.modulated(
            textures,
            index,
            other,
            uv,
        ).z,
{
}

/// Between two pixels, a lookup goes from the one to the other: it is nearer to the
/// next pixel the further it lies from the last.
pub proof fn law_lookup_follows_the_coordinate(rules: ArithRules, a: Scalar, b: Scalar, size: u32)
    requires
        size > 0,
        rules.orders_sums(),
        rules.orders_products(),
        rules.stop(a, size).low == rules.stop(b, size).low,
        ({
            let fa = rules.difference(a, rules.floor(a));
            let fb = rules.difference(b, rules.floor(b));
            let last = rules.difference(rules.of_count(size as usize), Scalar::one());
            &&& fa.is_finite() && fb.is_finite() && fa.le(fb)
            &&& last.is_finite() && Scalar::zero().le(last)
            &&& rules.product(fa, last).is_finite() && rules.product(fb, last).is_finite()
            &&& rules.of_count(rules.stop(a, size).low as usize).is_finite()
        }),
    ensures
        rules.stop(a, size).t.le(rules.stop(b, size).t),
{
}

} // verus!
