//! What is shown of how fast a picture is rendered.
use vstd::prelude::*;
use crate::double::{Double, PreciseArith, PreciseRules};
use crate::tracer::config::Pixel;

verus! {

/// Key of a million.
pub const MILLION_KEY: i64 = 0x412e_8480_0000_0000;

/// Key of a thousand.
pub const THOUSAND_KEY: i64 = 0x408f_4000_0000_0000;

/// Key of a hundred.
pub const HUNDRED_KEY: i64 = 0x4059_0000_0000_0000;

/// What was traced in a stretch of time, in nanoseconds.
#[derive(Clone, Copy, PartialEq, Eq, Structural, Debug)]
pub struct Rates {
    pub paths: u64,
    pub rays: u64,
    pub shadow_rays: u64,
    pub elapsed: u64,
}

impl Rates {
    /// Nothing yet.
    #[verifier::allow_in_spec]
    pub fn none() -> Rates
        returns
            (Rates { paths: 0, rays: 0, shadow_rays: 0, elapsed: 0 }),
    {
        Rates { paths: 0, rays: 0, shadow_rays: 0, elapsed: 0 }
    }
}

/// What is shown of it.
#[derive(Clone, Copy, PartialEq, Eq, Structural, Debug)]
pub struct Throughput {
    pub paths_per_sec: Double,
    pub rays_per_sec: Double,
    pub shadow_rays_per_sec: Double,
    pub total_rays_per_sec: Double,
    /// The part of rays that are shadow rays, in percent.
    pub shadow_pct: Double,
    pub rays_per_path: Double,
}

/// The unit in which a rate is shown.
#[derive(Clone, Copy, PartialEq, Eq, Structural, Debug)]
pub enum RateUnit {
    /// Millions, with two digits.
    Mega,
    /// Thousands, with one digit.
    Kilo,
    /// Single ones.
    Plain,
}

/// A rate in its unit.
#[derive(Clone, Copy, PartialEq, Eq, Structural, Debug)]
pub struct ShownRate {
    pub value: Double,
    pub unit: RateUnit,
}

/// The number of samples of some pixels.
pub open spec fn samples_in(pixels: Seq<Pixel>) -> nat
    decreases pixels.len(),
{
    if pixels.len() == 0 {
        0
    } else {
        samples_in(pixels.drop_last()) + pixels.last().samples as nat
    }
}

impl PreciseRules {
    /// A count per second; zero before any time has passed.
    pub open spec fn per_second(self, count: u64, elapsed: u64) -> Double {
        if elapsed == 0 {
            Double::zero()
        } else {
            self.quotient(self.count(count), self.seconds(elapsed))
        }
    }

    /// What is shown of what was traced.
    pub open spec fn throughput(self, rates: Rates) -> Throughput {
        let paths_per_sec = self.per_second(rates.paths, rates.elapsed);
        let rays_per_sec = self.per_second(rates.rays, rates.elapsed);
        let shadow_rays_per_sec = self.per_second(rates.shadow_rays, rates.elapsed);
        let total_rays_per_sec = self.sum(rays_per_sec, shadow_rays_per_sec);
        Throughput {
            paths_per_sec,
            rays_per_sec,
            shadow_rays_per_sec,
            total_rays_per_sec,
            shadow_pct: if Double::zero().lt(total_rays_per_sec) {
                self.quotient(self.product(Double { key: HUNDRED_KEY }, shadow_rays_per_sec), total_rays_per_sec)
            } else {
                Double::zero()
            },
            rays_per_path: if Double::zero().lt(paths_per_sec) {
                self.quotient(total_rays_per_sec, paths_per_sec)
            } else {
                Double::zero()
            },
        }
    }

    /// A rate in the largest unit that it fills.
    pub open spec fn shown_rate(self, rate: Double) -> ShownRate {
        if (Double { key: MILLION_KEY }).le(rate) {
            ShownRate { value: self.quotient(rate, Double { key: MILLION_KEY }), unit: RateUnit::Mega }
        } else if (Double { key: THOUSAND_KEY }).le(rate) {
            ShownRate { value: self.quotient(rate, Double { key: THOUSAND_KEY }), unit: RateUnit::Kilo }
        } else {
            ShownRate { value: rate, unit: RateUnit::Plain }
        }
    }

    /// The mean number of samples of a pixel; zero without pixels.
    pub open spec fn average_samples(self, pixels: Seq<Pixel>) -> Double {
        if pixels.len() == 0 {
            Double::zero()
        } else {
            self.quotient(self.count(samples_in(pixels) as u64), self.count(pixels.len() as u64))
        }
    }
}

/// A count per second.
fn per_second<M: PreciseArith>(math: &M, count: u64, elapsed: u64) -> (r: Double)
    ensures
        forall|rules: PreciseRules| #[trigger] rules.describe(*math) ==> r == rules.per_second(count, elapsed),
{
    if elapsed == 0 {
        Double::zero()
    } else {
        math.precise_quotient(math.precise_count(count), math.seconds(elapsed))
    }
}

/// What is shown of what was traced.
pub fn throughput<M: PreciseArith>(math: &M, rates: Rates) -> (r: Throughput)
    ensures
        forall|rules: PreciseRules| #[trigger] rules.describe(*math) ==> r == rules.throughput(rates),
{
    let paths_per_sec = per_second(math, rates.paths, rates.elapsed);
    let rays_per_sec = per_second(math, rates.rays, rates.elapsed);
    let shadow_rays_per_sec = per_second(math, rates.shadow_rays, rates.elapsed);
    let total_rays_per_sec = math.precise_sum(rays_per_sec, shadow_rays_per_sec);
    let shadow_pct = if Double::zero().lt(total_rays_per_sec) {
        math.precise_quotient(
            math.precise_product(Double { key: HUNDRED_KEY }, shadow_rays_per_sec),
            total_rays_per_sec,
        )
    } else {
        Double::zero()
    };
    let rays_per_path = if Double::zero().lt(paths_per_sec) {
        math.precise_quotient(total_rays_per_sec, paths_per_sec)
    } else {
        Double::zero()
    };
    Throughput { paths_per_sec, rays_per_sec, shadow_rays_per_sec, total_rays_per_sec, shadow_pct, rays_per_path }
}

/// A rate in the largest unit that it fills.
pub fn shown_rate<M: PreciseArith>(math: &M, rate: Double) -> (r: ShownRate)
    ensures
        forall|rules: PreciseRules| #[trigger] rules.describe(*math) ==> r == rules.shown_rate(rate),
{
    if (Double { key: MILLION_KEY }).le(rate) {
        ShownRate { value: math.precise_quotient(rate, Double { key: MILLION_KEY }), unit: RateUnit::Mega }
    } else if (Double { key: THOUSAND_KEY }).le(rate) {
        ShownRate { value: math.precise_quotient(rate, Double { key: THOUSAND_KEY }), unit: RateUnit::Kilo }
    } else {
        ShownRate { value: rate, unit: RateUnit::Plain }
    }
}

/// The mean number of samples of a pixel.
pub fn average_samples<M: PreciseArith>(math: &M, pixels: &Vec<Pixel>) -> (r: Double)
    requires
        pixels.len() <= u32::MAX,
    ensures
        forall|rules: PreciseRules| #[trigger] rules.describe(*math) ==> r == rules.average_samples(pixels@),
{
    if pixels.len() == 0 {
        return Double::zero();
    }
    let mut total: u64 = 0;
    let mut i: usize = 0;
    while i < pixels.len()
        invariant
            i <= pixels.len(),
            pixels.len() <= u32::MAX,
            total == samples_in(pixels@.take(i as int)),
            total <= i * u32::MAX,
        decreases pixels.len() - i,
    {
        assert(i * u32::MAX <= u32::MAX * u32::MAX - u32::MAX) by (nonlinear_arith)
            requires
                i < u32::MAX,
        ;
        assert(pixels@.take(i as int + 1).drop_last() =~= pixels@.take(i as int));
        total = total + pixels[i].samples as u64;
        i = i + 1;
    }
    assert(pixels@.take(i as int) =~= pixels@);
    math.precise_quotient(math.precise_count(total), math.precise_count(pixels.len() as u64))
}

/// A rate that fills no unit is shown as it is, and every unit is filled by what
/// it shows: the least rate in thousands is a thousand, in millions a million.
pub proof fn law_units_are_filled(rules: PreciseRules, rate: Double)
    requires
        rate.ordered(),
    ensures
        rules.shown_rate(rate).unit is Mega <==> MILLION_KEY <= rate.key,
        rules.shown_rate(rate).unit is Kilo <==> THOUSAND_KEY <= rate.key < MILLION_KEY,
        rules.shown_rate(rate).unit is Plain ==> rules.shown_rate(rate).value == rate,
{
}

/// A rate, kept up for the time it was measured in, makes up the count, wherever
/// dividing by the seconds can be undone. There is no rate before any time has passed.
pub proof fn law_rate_makes_up_the_count(rules: PreciseRules, count: u64, elapsed: u64)
    requires
        rules.product(rules.quotient(rules.count(count), rules.seconds(elapsed)), rules.seconds(elapsed)) == rules.count(
            count,
        ),
    ensures
        elapsed > 0 ==> rules.product(rules.per_second(count, elapsed), rules.seconds(elapsed)) == rules.count(count),
        rules.per_second(count, 0) == Double::zero(),
{
}

/// Every count has its own rate, wherever dividing by the seconds can be undone.
pub proof fn law_rates_are_kept_apart(rules: PreciseRules, rates: Rates)
    requires
        rates.elapsed > 0,
        forall|n: u64|
            n == rates.paths || n == rates.rays || n == rates.shadow_rays ==> rules.product(
                #[trigger] rules.quotient(rules.count(n), rules.seconds(rates.elapsed)),
                rules.seconds(rates.elapsed),
            ) == rules.count(n),
    ensures
        ({
            let t = rules.throughput(rates);
            let time = rules.seconds(rates.elapsed);
            &&& rules.product(t.paths_per_sec, time) == rules.count(rates.paths)
            &&& rules.product(t.rays_per_sec, time) == rules.count(rates.rays)
            &&& rules.product(t.shadow_rays_per_sec, time) == rules.count(rates.shadow_rays)
        }),
{
    law_rate_makes_up_the_count(rules, rates.paths, rates.elapsed);
    law_rate_makes_up_the_count(rules, rates.rays, rates.elapsed);
    law_rate_makes_up_the_count(rules, rates.shadow_rays, rates.elapsed);
}

/// Where all rays are shadow rays, they are a hundred percent; where none are, they
/// are none. A path that takes one ray takes one ray.
pub proof fn law_shares_of_rays(rules: PreciseRules, rates: Rates)
    requires
        ({
            let t = rules.throughput(rates);
            let hundred = Double { key: HUNDRED_KEY };
            &&& rules.sum(Double::zero(), t.shadow_rays_per_sec) == t.shadow_rays_per_sec
            &&& rules.sum(t.rays_per_sec, Double::zero()) == t.rays_per_sec
            &&& Double::zero().lt(t.shadow_rays_per_sec) ==> rules.quotient(
                rules.product(hundred, t.shadow_rays_per_sec),
                t.shadow_rays_per_sec,
            ) == hundred
            &&& rules.product(hundred, Double::zero()) == Double::zero()
            &&& Double::zero().lt(t.rays_per_sec) ==> rules.quotient(Double::zero(), t.rays_per_sec) == Double::zero()
            &&& Double::zero().lt(t.paths_per_sec) ==> rules.quotient(t.paths_per_sec, t.paths_per_sec) == (Double {
                key: 0x3ff0_0000_0000_0000,
            })
        }),
    ensures
        ({
            let t = rules.throughput(rates);
            &&& t.rays_per_sec == Double::zero() ==> t.total_rays_per_sec == t.shadow_rays_per_sec
            &&& t.shadow_rays_per_sec == Double::zero() ==> t.total_rays_per_sec == t.rays_per_sec
            &&& t.rays_per_sec == Double::zero() && Double::zero().lt(t.shadow_rays_per_sec) ==> t.shadow_pct
                == (Double { key: HUNDRED_KEY })
            &&& t.shadow_rays_per_sec == Double::zero() ==> t.shadow_pct == Double::zero()
            &&& t.total_rays_per_sec == t.paths_per_sec && Double::zero().lt(t.paths_per_sec) ==> t.rays_per_path == (
            Double { key: 0x3ff0_0000_0000_0000 })
        }),
{
}

/// What is shown of a rate, times its unit, is the rate, wherever dividing by the
/// unit can be undone.
pub proof fn law_unit_makes_up_the_rate(rules: PreciseRules, rate: Double)
    requires
        rules.product(rules.quotient(rate, Double { key: MILLION_KEY }), Double { key: MILLION_KEY }) == rate,
        rules.product(rules.quotient(rate, Double { key: THOUSAND_KEY }), Double { key: THOUSAND_KEY }) == rate,
    ensures
        ({
            let s = rules.shown_rate(rate);
            match s.unit {
                RateUnit::Mega => rules.product(s.value, Double { key: MILLION_KEY }) == rate,
                RateUnit::Kilo => rules.product(s.value, Double { key: THOUSAND_KEY }) == rate,
                RateUnit::Plain => s.value == rate,
            }
        }),
{
}

/// The samples of two lists of pixels are those of the one and those of the other,
/// and those of a single pixel are its own.
pub proof fn law_samples_add_up(a: Seq<Pixel>, b: Seq<Pixel>, p: Pixel)
    ensures
        samples_in(a + b) == samples_in(a) + samples_in(b),
        samples_in(seq![p]) == p.samples,
    decreases b.len(),
{
    reveal_with_fuel(samples_in, 2);
    assert(seq![p].drop_last() =~= Seq::<Pixel>::empty());
    if b.len() == 0 {
        assert(a + b =~= a);
    } else {
        law_samples_add_up(a, b.drop_last(), p);
        assert((a + b).drop_last() =~= a + b.drop_last());
    }
}

/// The mean, once for every pixel, makes up all samples, wherever dividing by the
/// number of pixels can be undone.
pub proof fn law_mean_makes_up_the_samples(rules: PreciseRules, pixels: Seq<Pixel>)
    requires
        0 < pixels.len() <= u64::MAX,
        samples_in(pixels) <= u64::MAX,
        ({
            let samples = rules.count(samples_in(pixels) as u64);
            let n = rules.count(pixels.len() as u64);
            rules.product(rules.quotient(samples, n), n) == samples
        }),
    ensures
        rules.product(rules.average_samples(pixels), rules.count(pixels.len() as u64)) == rules.count(
            samples_in(pixels) as u64,
        ),
{
}

} // verus!
