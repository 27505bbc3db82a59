//! The arithmetic of building a tree, made of that of numbers.
use vstd::prelude::*;
use crate::aabb::AABB;
use crate::arith::{minus, plus, shrunk, Arith, ArithRules};
use crate::emitters::HALF_KEY;
use crate::microfacet::TWO_KEY;
use crate::scalar::{Point3, Scalar};
use crate::scene::THREE_KEY;

verus! {

/// Number of bins along an axis when a split is looked for.
pub const SAH_BINS: usize = 16;

/// Number of places between bins where a split can lie.
pub const SAH_SPLITS: usize = 15;

/// Key of the width by which boxes are grown.
pub const BOX_MARGIN_KEY: i32 = 0x3727_c5ac;

/// Key of the number of bins.
pub const BINS_KEY: i32 = 0x4180_0000;

/// Key of the last bin.
pub const LAST_BIN_KEY: i32 = 0x4170_0000;

/// The functions by which a tree is built.
pub struct BuildRules {
    /// A box, widened on every side so that rounding cannot lose a hit.
    pub grow: spec_fn(AABB) -> AABB,
    /// The middle of a box.
    pub center: spec_fn(AABB) -> Point3,
    /// The middle of a triangle.
    pub centroid: spec_fn(Point3, Point3, Point3) -> Point3,
    /// The vector from one point to another.
    pub edge: spec_fn(Point3, Point3) -> Point3,
    /// The length of an interval.
    pub extent: spec_fn(Scalar, Scalar) -> Scalar,
    /// The middle of an interval.
    pub middle: spec_fn(Scalar, Scalar) -> Scalar,
    /// The surface area of a box, zero if it is flat or empty.
    pub surface_area: spec_fn(AABB) -> Scalar,
    /// The bin of a coordinate in an interval, when candidates are counted.
    pub bin: spec_fn(Scalar, Scalar, Scalar) -> usize,
    /// The bin of a coordinate in an interval, when the chosen split is made.
    pub side: spec_fn(Scalar, Scalar, Scalar) -> usize,
    /// The cost of a split: the areas of the node and of its two parts, and the
    /// number of chunks on each side.
    pub split_cost: spec_fn(Scalar, Scalar, usize, Scalar, usize) -> Scalar,
    /// The cost of a leaf of a number of chunks.
    pub leaf_cost: spec_fn(usize) -> Scalar,
}

impl BuildRules {
    /// Whether these are the functions that an arithmetic of numbers gives.
    pub open spec fn describe<M: Arith>(self, m: M) -> bool {
        exists|arith: ArithRules| #[trigger] arith.describe(m) && self == arith.build_rules()
    }
}

impl ArithRules {
    /// A box, grown by a margin on every side.
    pub open spec fn grown_box(self, b: AABB) -> AABB {
        let e = Scalar { key: BOX_MARGIN_KEY };
        let margin = Point3 { x: e, y: e, z: e };
        AABB { min: self.minus(b.min, margin), max: self.plus(b.max, margin) }
    }

    /// The middle of a box.
    pub open spec fn box_center(self, b: AABB) -> Point3 {
        self.shrunk(self.plus(b.min, b.max), Scalar { key: TWO_KEY })
    }

    /// The middle of a triangle.
    pub open spec fn tri_centroid(self, a: Point3, b: Point3, c: Point3) -> Point3 {
        self.shrunk(self.plus(self.plus(a, b), c), Scalar { key: THREE_KEY })
    }

    /// The middle of an interval.
    pub open spec fn interval_middle(self, lo: Scalar, hi: Scalar) -> Scalar {
        self.product(self.sum(lo, hi), Scalar { key: HALF_KEY })
    }

    /// The surface area of a box, zero if it is flat or empty.
    pub open spec fn box_area(self, b: AABB) -> Scalar {
        let e = self.minus(b.max, b.min);
        if e.x.le(Scalar::zero()) || e.y.le(Scalar::zero()) || e.z.le(Scalar::zero()) {
            Scalar::zero()
        } else {
            self.product(
                Scalar { key: TWO_KEY },
                self.sum(self.sum(self.product(e.x, e.y), self.product(e.y, e.z)), self.product(e.z, e.x)),
            )
        }
    }

    /// Where a coordinate lies in an interval.
    pub open spec fn interval_fraction(self, x: Scalar, lo: Scalar, hi: Scalar) -> Scalar {
        self.quotient(self.difference(x, lo), self.difference(hi, lo))
    }

    /// The bin of a coordinate, when candidates are counted.
    pub open spec fn counted_bin(self, x: Scalar, lo: Scalar, hi: Scalar) -> usize {
        self.to_count(
            self.product(Scalar { key: BINS_KEY }, self.interval_fraction(x, lo, hi)).min(Scalar { key: LAST_BIN_KEY }),
        )
    }

    /// The bin of a coordinate, when the split is made.
    pub open spec fn split_bin(self, x: Scalar, lo: Scalar, hi: Scalar) -> usize {
        self.to_count(self.product(self.interval_fraction(x, lo, hi), Scalar { key: BINS_KEY }))
    }

    /// The cost of a split: a step down, and the parts by their share of the area.
    pub open spec fn sah_cost(self, total: Scalar, left: Scalar, left_count: usize, right: Scalar, right_count: usize) -> Scalar {
        let parts = self.sum(
            self.product(left, self.of_count(left_count)),
            self.product(right, self.of_count(right_count)),
        );
        self.sum(Scalar::one(), self.product(parts, self.quotient(Scalar::one(), total)))
    }
}

/// A box, grown by a margin on every side.
fn grown_box<M: Arith>(math: &M, b: AABB) -> (r: AABB)
    ensures
        forall|rules: ArithRules| #[trigger] rules.describe(*math) ==> r == rules.grown_box(b),
{
    let e = Scalar { key: BOX_MARGIN_KEY };
    let margin = Point3 { x: e, y: e, z: e };
    AABB { min: minus(math, b.min, margin), max: plus(math, b.max, margin) }
}

/// The middle of a box.
fn box_center<M: Arith>(math: &M, b: AABB) -> (r: Point3)
    ensures
        forall|rules: ArithRules| #[trigger] rules.describe(*math) ==> r == rules.box_center(b),
{
    shrunk(math, plus(math, b.min, b.max), Scalar { key: TWO_KEY })
}

/// The middle of a triangle.
fn tri_centroid<M: Arith>(math: &M, a: Point3, b: Point3, c: Point3) -> (r: Point3)
    ensures
        forall|rules: ArithRules| #[trigger] rules.describe(*math) ==> r == rules.tri_centroid(a, b, c),
{
    shrunk(math, plus(math, plus(math, a, b), c), Scalar { key: THREE_KEY })
}

/// The middle of an interval.
fn interval_middle<M: Arith>(math: &M, lo: Scalar, hi: Scalar) -> (r: Scalar)
    ensures
        forall|rules: ArithRules| #[trigger] rules.describe(*math) ==> r == rules.interval_middle(lo, hi),
{
    math.product(math.sum(lo, hi), Scalar { key: HALF_KEY })
}

/// The surface area of a box, zero if it is flat or empty.
fn box_area<M: Arith>(math: &M, b: AABB) -> (r: Scalar)
    ensures
        forall|rules: ArithRules| #[trigger] rules.describe(*math) ==> r == rules.box_area(b),
{
    let e = minus(math, b.max, b.min);
    if e.x.le(Scalar::zero()) || e.y.le(Scalar::zero()) || e.z.le(Scalar::zero()) {
        Scalar::zero()
    } else {
        math.product(
            Scalar { key: TWO_KEY },
            math.sum(math.sum(math.product(e.x, e.y), math.product(e.y, e.z)), math.product(e.z, e.x)),
        )
    }
}

/// Where a coordinate lies in an interval.
fn interval_fraction<M: Arith>(math: &M, x: Scalar, lo: Scalar, hi: Scalar) -> (r: Scalar)
    ensures
        forall|rules: ArithRules| #[trigger] rules.describe(*math) ==> r == rules.interval_fraction(x, lo, hi),
{
    math.quotient(math.difference(x, lo), math.difference(hi, lo))
}

/// The bin of a coordinate, when candidates are counted.
fn counted_bin<M: Arith>(math: &M, x: Scalar, lo: Scalar, hi: Scalar) -> (r: usize)
    ensures
        forall|rules: ArithRules| #[trigger] rules.describe(*math) ==> r == rules.counted_bin(x, lo, hi),
{
    math.to_count(
        math.product(Scalar { key: BINS_KEY }, interval_fraction(math, x, lo, hi)).min(Scalar { key: LAST_BIN_KEY }),
    )
}

/// The bin of a coordinate, when the split is made.
fn split_bin<M: Arith>(math: &M, x: Scalar, lo: Scalar, hi: Scalar) -> (r: usize)
    ensures
        forall|rules: ArithRules| #[trigger] rules.describe(*math) ==> r == rules.split_bin(x, lo, hi),
{
    math.to_count(math.product(interval_fraction(math, x, lo, hi), Scalar { key: BINS_KEY }))
}

/// The cost of a split: a step down, and the parts by their share of the area.
fn sah_cost<M: Arith>(math: &M, total: Scalar, left: Scalar, left_count: usize, right: Scalar, right_count: usize) -> (r: Scalar)
    ensures
        forall|rules: ArithRules| #[trigger] rules.describe(*math) ==> r == rules.sah_cost(total, left, left_count, right, right_count),
{
    let parts = math.sum(
        math.product(left, math.of_count(left_count)),
        math.product(right, math.of_count(right_count)),
    );
    math.sum(Scalar::one(), math.product(parts, math.quotient(Scalar::one(), total)))
}

impl ArithRules {
    /// The functions by which a tree is built with this arithmetic.
    pub open spec fn build_rules(self) -> BuildRules {
        BuildRules {
            grow: |b: AABB| self.grown_box(b),
            center: |b: AABB| self.box_center(b),
            centroid: |a: Point3, b: Point3, c: Point3| self.tri_centroid(a, b, c),
            edge: |a: Point3, b: Point3| self.minus(b, a),
            extent: |a: Scalar, b: Scalar| self.difference(b, a),
            middle: |a: Scalar, b: Scalar| self.interval_middle(a, b),
            surface_area: |b: AABB| self.box_area(b),
            bin: |x: Scalar, a: Scalar, b: Scalar| self.counted_bin(x, a, b),
            side: |x: Scalar, a: Scalar, b: Scalar| self.split_bin(x, a, b),
            split_cost: |t: Scalar, a: Scalar, n: usize, b: Scalar, k: usize| self.sah_cost(t, a, n, b, k),
            leaf_cost: |n: usize| self.product(self.of_count(n), Scalar::one()),
        }
    }
}

/// A box, widened on every side.
pub fn grow<M: Arith>(math: &M, aabb: AABB) -> (r: AABB)
    ensures
        forall|rules: BuildRules| #[trigger] rules.describe(*math) ==> r == (rules.grow)(aabb),
{
    grown_box(math, aabb)
}

/// The middle of a triangle.
pub fn centroid<M: Arith>(math: &M, a: Point3, b: Point3, c: Point3) -> (r: Point3)
    ensures
        forall|rules: BuildRules| #[trigger] rules.describe(*math) ==> r == (rules.centroid)(a, b, c),
{
    tri_centroid(math, a, b, c)
}

/// The vector from one point to another.
pub fn edge<M: Arith>(math: &M, from: Point3, to: Point3) -> (r: Point3)
    ensures
        forall|rules: BuildRules| #[trigger] rules.describe(*math) ==> r == (rules.edge)(from, to),
{
    minus(math, to, from)
}

/// The length of an interval.
pub fn extent<M: Arith>(math: &M, lo: Scalar, hi: Scalar) -> (r: Scalar)
    ensures
        forall|rules: BuildRules| #[trigger] rules.describe(*math) ==> r == (rules.extent)(lo, hi),
{
    math.difference(hi, lo)
}

/// The middle of an interval.
pub fn middle<M: Arith>(math: &M, lo: Scalar, hi: Scalar) -> (r: Scalar)
    ensures
        forall|rules: BuildRules| #[trigger] rules.describe(*math) ==> r == (rules.middle)(lo, hi),
{
    interval_middle(math, lo, hi)
}

/// The bin of a coordinate in an interval, when candidates are counted.
pub fn bin<M: Arith>(math: &M, x: Scalar, lo: Scalar, hi: Scalar) -> (r: usize)
    ensures
        forall|rules: BuildRules| #[trigger] rules.describe(*math) ==> r == (rules.bin)(x, lo, hi),
{
    counted_bin(math, x, lo, hi)
}

/// The bin of a coordinate in an interval, when the chosen split is made.
pub fn side<M: Arith>(math: &M, x: Scalar, lo: Scalar, hi: Scalar) -> (r: usize)
    ensures
        forall|rules: BuildRules| #[trigger] rules.describe(*math) ==> r == (rules.side)(x, lo, hi),
{
    split_bin(math, x, lo, hi)
}

/// The cost of a split.
pub fn split_cost<M: Arith>(math: &M, total: Scalar, left: Scalar, left_count: usize, right: Scalar, right_count: usize) -> (r: Scalar)
    ensures
        forall|rules: BuildRules| #[trigger] rules.describe(*math) ==> r == (rules.split_cost)(total, left, left_count, right, right_count),
{
    sah_cost(math, total, left, left_count, right, right_count)
}

/// The cost of a leaf of a number of chunks.
pub fn leaf_cost<M: Arith>(math: &M, count: usize) -> (r: Scalar)
    ensures
        forall|rules: BuildRules| #[trigger] rules.describe(*math) ==> r == (rules.leaf_cost)(count),
{
    math.product(math.of_count(count), Scalar::one())
}

impl AABB {
    /// The middle of the box.
    pub fn center<M: Arith>(&self, math: &M) -> (r: Point3)
        ensures
            forall|rules: BuildRules| #[trigger] rules.describe(*math) ==> r == (rules.center)(*self),
    {
        box_center(math, *self)
    }

    /// The surface area, zero if the box is flat or empty.
    pub fn surface_area<M: Arith>(&self, math: &M) -> (r: Scalar)
        ensures
            forall|rules: BuildRules| #[trigger] rules.describe(*math) ==> r == (rules.surface_area)(*self),
    {
        box_area(math, *self)
    }
}

/// Larger boxes have no less surface, whichever side is longer, and flat ones none;
/// all three pairs of sides count alike.
pub proof fn law_surface_counts_all_sides(rules: ArithRules, b: AABB, turned: AABB)
    requires
        rules.commutes(),
        rules.minus(b.max, b.min).is_finite(),
        ({
            let e = rules.minus(b.max, b.min);
            let f = rules.minus(turned.max, turned.min);
            let (p, q, r) = (rules.product(e.x, e.y), rules.product(e.y, e.z), rules.product(e.z, e.x));
            &&& f == (Point3 { x: e.y, y: e.z, z: e.x })
            &&& p.is_finite() && q.is_finite() && r.is_finite()
            &&& rules.sum(rules.sum(q, r), p) == rules.sum(rules.sum(p, q), r)
        }),
    ensures
        rules.box_area(b) == rules.box_area(turned),
        rules.minus(b.max, b.min).x.le(Scalar::zero()) ==> rules.box_area(b) == Scalar::zero(),
{
}

/// The middle of a box and of an interval lies halfway, and the middle of a triangle at
/// the mean of its corners: twice, or three times, it is their sum.
pub proof fn law_middles_are_means(rules: ArithRules, b: AABB, p: Point3, q: Point3, r: Point3, lo: Scalar, hi: Scalar)
    requires
        rules.scaled(
            rules.shrunk(rules.plus(b.min, b.max), Scalar { key: TWO_KEY }),
            Scalar { key: TWO_KEY },
        ) == rules.plus(b.min, b.max),
        rules.scaled(
            rules.shrunk(rules.plus(rules.plus(p, q), r), Scalar { key: THREE_KEY }),
            Scalar { key: THREE_KEY },
        ) == rules.plus(rules.plus(p, q), r),
        rules.product(rules.product(rules.sum(lo, hi), Scalar { key: HALF_KEY }), Scalar { key: TWO_KEY }) == rules.sum(
            lo,
            hi,
        ),
    ensures
        rules.scaled(rules.box_center(b), Scalar { key: TWO_KEY }) == rules.plus(b.min, b.max),
        rules.scaled(rules.tri_centroid(p, q, r), Scalar { key: THREE_KEY }) == rules.plus(rules.plus(p, q), r),
        rules.product(rules.interval_middle(lo, hi), Scalar { key: TWO_KEY }) == rules.sum(lo, hi),
{
}

/// The cost of a split counts each part with its own chunks: the parts can be named
/// in either order, a part without chunks costs nothing, and a part as large as the
/// whole costs what a leaf with its chunks costs, and one step, wherever dividing by
/// the whole can be undone.
pub proof fn law_cost_weighs_parts(rules: ArithRules, total: Scalar, left: Scalar, n: usize, right: Scalar, k: usize)
    requires
        rules.commutes(),
        rules.keeps_zeros(),
        rules.keeps_ones(),
        rules.of_count(0) == Scalar::zero(),
        rules.of_count(n).ordered(),
        left.is_finite(),
        right.is_finite(),
        rules.product(left, rules.of_count(n)).is_finite(),
        rules.product(right, rules.of_count(k)).is_finite(),
        rules.product(total, rules.of_count(n)).is_finite(),
        rules.product(rules.product(total, rules.of_count(n)), rules.quotient(Scalar::one(), total)) == rules.of_count(n),
        rules.quotient(Scalar::one(), total).is_finite(),
    ensures
        rules.sah_cost(total, left, n, right, k) == rules.sah_cost(total, right, k, left, n),
        rules.sah_cost(total, left, 0, right, 0) == Scalar::one(),
        rules.sah_cost(total, total, n, right, 0) == rules.sum(Scalar::one(), (rules.build_rules().leaf_cost)(n)),
        rules.sah_cost(total, left, 0, total, n) == rules.sum(Scalar::one(), (rules.build_rules().leaf_cost)(n)),
{
    assert(rules.product(right, Scalar::zero()) == Scalar::zero());
    assert(rules.product(left, Scalar::zero()) == Scalar::zero());
    assert(rules.product(Scalar::zero(), rules.quotient(Scalar::one(), total)) == Scalar::zero());
    assert(rules.sum(rules.product(total, rules.of_count(n)), Scalar::zero()) == rules.product(
        total,
        rules.of_count(n),
    ));
}

/// A split costs no less when a part gets larger or holds more chunks.
pub proof fn law_cost_grows_with_parts(
    rules: ArithRules,
    total: Scalar,
    small: Scalar,
    few: usize,
    large: Scalar,
    many: usize,
    right: Scalar,
    k: usize,
)
    requires
        rules.orders_products(),
        rules.orders_sums(),
        small.is_finite(),
        large.is_finite(),
        Scalar::zero().le(small),
        small.le(large),
        rules.of_count(few).is_finite(),
        rules.of_count(many).is_finite(),
        Scalar::zero().le(rules.of_count(few)),
        rules.of_count(few).le(rules.of_count(many)),
        rules.product(small, rules.of_count(few)).is_finite(),
        rules.product(large, rules.of_count(few)).is_finite(),
        rules.product(large, rules.of_count(many)).is_finite(),
        rules.product(right, rules.of_count(k)).is_finite(),
        rules.quotient(Scalar::one(), total).is_finite(),
        Scalar::zero().le(rules.quotient(Scalar::one(), total)),
        ({
            let rest = rules.product(right, rules.of_count(k));
            let few_sum = rules.sum(rules.product(small, rules.of_count(few)), rest);
            let many_sum = rules.sum(rules.product(large, rules.of_count(many)), rest);
            let part = rules.quotient(Scalar::one(), total);
            &&& few_sum.is_finite() && many_sum.is_finite()
            &&& rules.product(few_sum, part).is_finite() && rules.product(many_sum, part).is_finite()
        }),
    ensures
        rules.sah_cost(total, small, few, right, k).le(rules.sah_cost(total, large, many, right, k)),
{
    let rest = rules.product(right, rules.of_count(k));
    let a = rules.product(small, rules.of_count(few));
    let b = rules.product(large, rules.of_count(few));
    let c = rules.product(large, rules.of_count(many));
    let part = rules.quotient(Scalar::one(), total);
    assert(a.le(b) && b.le(c));
    assert(rules.sum(a, rest).le(rules.sum(c, rest)));
    assert(rules.product(rules.sum(a, rest), part).le(rules.product(rules.sum(c, rest), part)));
    assert(Scalar::one().is_finite());
}

/// The bins run along an interval: the first starts where it starts, what lies at its
/// end is counted in the last and split beyond it, and a coordinate further along is
/// in no earlier bin, where counts keep the order of numbers.
pub proof fn law_bins_run_along_the_interval(rules: ArithRules, lo: Scalar, hi: Scalar, near: Scalar, far: Scalar)
    requires
        rules.keeps_ones(),
        rules.keeps_zeros(),
        rules.keeps_selves(),
        rules.orders_sums(),
        rules.orders_products(),
        lo.is_finite(),
        hi.is_finite(),
        rules.difference(hi, lo).is_finite(),
        Scalar::zero().lt(rules.difference(hi, lo)),
        near.is_finite(),
        far.is_finite(),
        lo.le(near),
        near.le(far),
        far.le(hi),
        rules.difference(near, lo).is_finite(),
        rules.difference(far, lo).is_finite(),
        rules.interval_fraction(near, lo, hi).is_finite(),
        rules.interval_fraction(far, lo, hi).is_finite(),
        forall|a: Scalar, b: Scalar|
            #![trigger rules.to_count(a), rules.to_count(b)]
            Scalar::zero().le(a) && a.le(b) ==> rules.to_count(a) <= rules.to_count(b),
    ensures
        rules.counted_bin(lo, lo, hi) == rules.to_count(Scalar::zero()),
        rules.split_bin(lo, lo, hi) == rules.to_count(Scalar::zero()),
        rules.counted_bin(hi, lo, hi) == rules.to_count(Scalar { key: LAST_BIN_KEY }),
        rules.split_bin(hi, lo, hi) == rules.to_count(Scalar { key: BINS_KEY }),
        rules.counted_bin(near, lo, hi) <= rules.counted_bin(far, lo, hi),
        rules.split_bin(near, lo, hi) <= rules.split_bin(far, lo, hi),
{
    let bins = Scalar { key: BINS_KEY };
    let whole = rules.difference(hi, lo);
    assert(rules.difference(lo, lo) == Scalar::zero());
    assert(rules.interval_fraction(lo, lo, hi) == Scalar::zero());
    assert(rules.interval_fraction(hi, lo, hi) == Scalar::one());
    assert(rules.product(bins, Scalar::zero()) == Scalar::zero());
    assert(rules.product(Scalar::zero(), bins) == Scalar::zero());
    assert(rules.product(bins, Scalar::one()) == bins);
    assert(rules.product(Scalar::one(), bins) == bins);
    assert(rules.difference(lo, lo).le(rules.difference(near, lo)));
    assert(rules.difference(near, lo).le(rules.difference(far, lo)));
    let f = rules.interval_fraction(near, lo, hi);
    let g = rules.interval_fraction(far, lo, hi);
    assert(rules.quotient(Scalar::zero(), whole).le(f));
    assert(f.le(g));
    assert(rules.product(bins, Scalar::zero()).le(rules.product(bins, f)));
    assert(rules.product(bins, f).le(rules.product(bins, g)));
    assert(rules.product(Scalar::zero(), bins).le(rules.product(f, bins)));
    assert(rules.product(f, bins).le(rules.product(g, bins)));
}

/// A box that is grown still holds what it held, and every side moves out by as much.
pub proof fn law_grown_box_holds_the_box(rules: ArithRules, b: AABB)
    requires
        rules.keeps_zeros(),
        rules.orders_sums(),
        b.min.is_finite(),
        b.max.is_finite(),
    ensures
        rules.grown_box(b).min.at_most(b.min),
        b.max.at_most(rules.grown_box(b).max),
        b.min.x == b.min.y && b.min.y == b.min.z ==> rules.grown_box(b).min.x == rules.grown_box(b).min.y
            && rules.grown_box(b).min.y == rules.grown_box(b).min.z,
        b.max.x == b.max.y && b.max.y == b.max.z ==> rules.grown_box(b).max.x == rules.grown_box(b).max.y
            && rules.grown_box(b).max.y == rules.grown_box(b).max.z,
{
    let e = Scalar { key: BOX_MARGIN_KEY };
    let zero = Scalar::zero();
    assert(zero.le(e) && e.is_finite() && zero.is_finite());
    assert(rules.difference(b.min.x, e).le(rules.difference(b.min.x, zero)));
    assert(rules.difference(b.min.y, e).le(rules.difference(b.min.y, zero)));
    assert(rules.difference(b.min.z, e).le(rules.difference(b.min.z, zero)));
    assert(rules.sum(b.max.x, zero).le(rules.sum(b.max.x, e)));
    assert(rules.sum(b.max.y, zero).le(rules.sum(b.max.y, e)));
    assert(rules.sum(b.max.z, zero).le(rules.sum(b.max.z, e)));
}

} // verus!
