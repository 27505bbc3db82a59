//! The features that a network is fed.
use vstd::prelude::*;
use crate::arith::{Arith, ArithRules};
use crate::emitters::HALF_KEY;
use crate::microfacet::{PI_KEY, TWO_KEY};
use crate::scalar::{Point3, Scalar};

verus! {

/// Number of blobs that encode each coordinate of a position.
pub const POS_BINS: usize = 1;

/// Number of sinusoidal frequencies applied to each direction component.
pub const DIR_FREQS: usize = 1;

/// Number of features: one per blob and axis, and a sine and a cosine per
/// frequency and axis.
pub const INPUT_DIM: usize = POS_BINS * 3 + DIR_FREQS * 2 * 3;

/// Number of values that a network puts out.
pub const OUTPUT_DIM: usize = 3;

impl ArithRules {
    /// Where a coordinate lies between bounds, from 0 to 1; in the middle if they
    /// leave no room.
    pub open spec fn placed(self, x: Scalar, lo: Scalar, hi: Scalar) -> Scalar {
        let extent = self.difference(hi, lo);
        if Scalar::zero().lt(extent) {
            self.quotient(self.difference(x, lo), extent)
        } else {
            Scalar { key: HALF_KEY }
        }
    }

    /// How near a fraction is to the middle of a bin: a bell whose width is that
    /// of the bin.
    pub open spec fn blob(self, x: Scalar, bin: usize) -> Scalar {
        let bins = self.of_count(POS_BINS);
        let middle = self.product(
            self.sum(self.of_count(bin), Scalar { key: HALF_KEY }),
            self.quotient(Scalar::one(), bins),
        );
        let sharpness = self.quotient(self.whole_power(bins, 2), Scalar { key: TWO_KEY });
        self.exponential(self.product(self.whole_power(self.difference(x, middle), 2).negated(), sharpness))
    }

    /// A direction component as an angle, at a frequency.
    pub open spec fn phase(self, d: Scalar, freq: u32) -> Scalar {
        self.product(self.product(self.of_count((1u32 << freq) as usize), Scalar { key: PI_KEY }), d)
    }

    /// The feature at an index: first blobs of the position, bin by bin and axis
    /// by axis, then for each frequency the sines and the cosines of the direction.
    pub open spec fn feature(self, pos: Point3, dir: Point3, lo: Point3, hi: Point3, j: int) -> Scalar {
        let axis = (j % 3) as usize;
        let block = j / 3;
        if block < POS_BINS {
            self.blob(self.placed(pos.coord(axis), lo.coord(axis), hi.coord(axis)), block as usize)
        } else {
            let phase = self.phase(dir.coord(axis), ((block - POS_BINS) / 2) as u32);
            if (block - POS_BINS) % 2 == 0 {
                self.sine(phase)
            } else {
                self.cosine(phase)
            }
        }
    }

    /// All features of a position and a direction.
    pub open spec fn features(self, pos: Point3, dir: Point3, lo: Point3, hi: Point3) -> Seq<Scalar> {
        Seq::new(INPUT_DIM as nat, |j: int| self.feature(pos, dir, lo, hi, j))
    }
}

/// Where a coordinate lies between bounds; in the middle if they leave no room.
fn place<M: Arith>(math: &M, x: Scalar, lo: Scalar, hi: Scalar) -> (r: Scalar)
    ensures
        forall|rules: ArithRules| #[trigger] rules.describe(*math) ==> r == rules.placed(x, lo, hi),
{
    let extent = math.difference(hi, lo);
    if Scalar::zero().lt(extent) {
        math.quotient(math.difference(x, lo), extent)
    } else {
        Scalar { key: HALF_KEY }
    }
}

/// How near a fraction is to the middle of a bin.
fn blob<M: Arith>(math: &M, x: Scalar, bin: usize) -> (r: Scalar)
    ensures
        forall|rules: ArithRules| #[trigger] rules.describe(*math) ==> r == rules.blob(x, bin),
{
    let bins = math.of_count(POS_BINS);
    let middle = math.product(
        math.sum(math.of_count(bin), Scalar { key: HALF_KEY }),
        math.quotient(Scalar::one(), bins),
    );
    let sharpness = math.quotient(math.whole_power(bins, 2), Scalar { key: TWO_KEY });
    math.exponential(math.product(math.whole_power(math.difference(x, middle), 2).negated(), sharpness))
}

/// Encodes a position within bounds, and a direction.
pub fn encode_inputs<M: Arith>(
    math: &M,
    pos: &Point3,
    dir: &Point3,
    bounds_min: &Point3,
    bounds_max: &Point3,
) -> (r: [Scalar; 9])
    ensures
        forall|rules: ArithRules| #[trigger]
            rules.describe(*math) ==> r@ == rules.features(*pos, *dir, *bounds_min, *bounds_max),
{
    let mut input = [Scalar::zero();9];
    let mut j: usize = 0;
    while j < INPUT_DIM
        invariant
            j <= INPUT_DIM,
            forall|rules: ArithRules, i: int|
                #![trigger rules.describe(*math), input[i]]
                rules.describe(*math) && 0 <= i < j ==> input[i] == rules.feature(
                    *pos,
                    *dir,
                    *bounds_min,
                    *bounds_max,
                    i,
                ),
        decreases INPUT_DIM - j,
    {
        let axis: usize = j % 3;
        let block: usize = j / 3;
        let x = if block < POS_BINS {
            blob(math, place(math, pos.coord(axis), bounds_min.coord(axis), bounds_max.coord(axis)), block)
        } else {
            let freq: u32 = ((block - POS_BINS) / 2) as u32;
            let factor: usize = (1u32 << freq) as usize;
            let phase = math.product(math.product(math.of_count(factor), Scalar { key: PI_KEY }), dir.coord(axis));
            if (block - POS_BINS) % 2 == 0 {
                math.sine(phase)
            } else {
                math.cosine(phase)
            }
        };
        input[j] = x;
        j = j + 1;
    }
    proof {
        assert forall|rules: ArithRules| #[trigger] rules.describe(*math) implies input@ == rules.features(
            *pos,
            *dir,
            *bounds_min,
            *bounds_max,
        ) by {
            assert(input@ =~= rules.features(*pos, *dir, *bounds_min, *bounds_max));
        }
    }
    input
}

/// What is fed to a network does not depend on where bounds without room lie:
/// along such an axis every position is in the middle.
pub proof fn law_flat_bounds_are_central(rules: ArithRules, x: Scalar, lo: Scalar, hi: Scalar)
    requires
        !Scalar::zero().lt(rules.difference(hi, lo)),
    ensures
        rules.placed(x, lo, hi) == (Scalar { key: HALF_KEY }),
{
}

/// Two inputs are told apart exactly if, along some axis, the blobs of their
/// positions, the sines or the cosines of their directions differ.
pub proof fn law_features_tell_apart(
    rules: ArithRules,
    pos: Point3,
    dir: Point3,
    other_pos: Point3,
    other_dir: Point3,
    lo: Point3,
    hi: Point3,
)
    ensures
        rules.features(pos, dir, lo, hi).len() == INPUT_DIM,
        rules.features(pos, dir, lo, hi) != rules.features(other_pos, other_dir, lo, hi) <==> exists|axis: usize|
            axis < 3 && #[trigger] is_told_apart(rules, pos, dir, other_pos, other_dir, lo, hi, axis),
{
    let a = rules.features(pos, dir, lo, hi);
    let b = rules.features(other_pos, other_dir, lo, hi);
    if a != b {
        if forall|j: int| 0 <= j < INPUT_DIM ==> a[j] == b[j] {
            assert(a =~= b);
        }
        let j = choose|j: int| 0 <= j < INPUT_DIM && a[j] != b[j];
        assert(is_told_apart(rules, pos, dir, other_pos, other_dir, lo, hi, (j % 3) as usize));
    }
    if exists|axis: usize|
        axis < 3 && #[trigger] is_told_apart(rules, pos, dir, other_pos, other_dir, lo, hi, axis) {
        let axis = choose|axis: usize|
            axis < 3 && #[trigger] is_told_apart(rules, pos, dir, other_pos, other_dir, lo, hi, axis);
        let i = axis as int;
        assert(a[i] == rules.feature(pos, dir, lo, hi, i) && b[i] == rules.feature(other_pos, other_dir, lo, hi, i));
        assert(a[i + 3] == rules.feature(pos, dir, lo, hi, i + 3));
        assert(b[i + 3] == rules.feature(other_pos, other_dir, lo, hi, i + 3));
        assert(a[i + 6] == rules.feature(pos, dir, lo, hi, i + 6));
        assert(b[i + 6] == rules.feature(other_pos, other_dir, lo, hi, i + 6));
    }
}

/// Whether two inputs have different features along an axis.
pub open spec fn is_told_apart(
    rules: ArithRules,
    pos: Point3,
    dir: Point3,
    other_pos: Point3,
    other_dir: Point3,
    lo: Point3,
    hi: Point3,
    axis: usize,
) -> bool {
    let place = |p: Point3| rules.placed(p.coord(axis), lo.coord(axis), hi.coord(axis));
    let phase = |d: Point3| rules.phase(d.coord(axis), 0);
    ||| rules.blob(place(pos), 0) != rules.blob(place(other_pos), 0)
    ||| rules.sine(phase(dir)) != rules.sine(phase(other_dir))
    ||| rules.cosine(phase(dir)) != rules.cosine(phase(other_dir))
}

/// A coordinate is placed between its bounds: nothing at the lower, one at the upper,
/// and in order between.
pub proof fn law_places_run_between_bounds(rules: ArithRules, low: Scalar, high: Scalar, lo: Scalar, hi: Scalar)
    requires
        rules.keeps_zeros(),
        rules.keeps_selves(),
        rules.orders_sums(),
        rules.orders_products(),
        lo.is_finite() && hi.is_finite(),
        low.is_finite() && high.is_finite() && low.le(high),
        rules.difference(hi, lo).is_finite() && Scalar::zero().lt(rules.difference(hi, lo)),
        rules.difference(low, lo).is_finite() && rules.difference(high, lo).is_finite(),
    ensures
        rules.placed(lo, lo, hi) == Scalar::zero(),
        rules.placed(hi, lo, hi) == Scalar::one(),
        rules.placed(low, lo, hi).le(rules.placed(high, lo, hi)),
{
}

/// A blob has its middle in the middle of its bin: half a bin beyond the bins before
/// it, where a bin is one of all, wherever dividing by their number can be undone. It
/// is one there, alike on both sides, no higher further away, and has fallen to the
/// exponential of minus a half where it is a whole bin away.
pub proof fn law_blob_peaks_in_the_middle(rules: ArithRules, bin: usize)
    requires
        rules.keeps_zeros(),
        rules.keeps_selves(),
        rules.orders_products(),
        rules.whole_power(Scalar::zero(), 2) == Scalar::zero(),
        rules.exponential(Scalar::zero()) == Scalar::one(),
        forall|a: Scalar|
            #![trigger rules.whole_power(a, 2)]
            a.is_finite() ==> rules.whole_power(a.negated(), 2) == rules.whole_power(a, 2),
        forall|a: Scalar, b: Scalar|
            #![trigger rules.exponential(a), rules.exponential(b)]
            a.le(b) ==> rules.exponential(a).le(rules.exponential(b)),
        ({
            let bins = rules.of_count(POS_BINS);
            let place = rules.sum(rules.of_count(bin), Scalar { key: HALF_KEY });
            let sharpness = rules.quotient(rules.whole_power(bins, 2), Scalar { key: TWO_KEY });
            &&& rules.product(place, rules.quotient(Scalar::one(), bins)).is_finite()
            &&& rules.product(rules.product(place, rules.quotient(Scalar::one(), bins)), bins) == place
            &&& sharpness.is_finite() && Scalar::zero().le(sharpness)
            &&& rules.product(rules.whole_power(rules.quotient(Scalar::one(), bins), 2).negated(), sharpness) == (Scalar {
                key: HALF_KEY,
            }).negated()
        }),
    ensures
        exists|middle: Scalar|
            {
                &&& #[trigger] rules.product(middle, rules.of_count(POS_BINS)) == rules.sum(
                    rules.of_count(bin),
                    Scalar { key: HALF_KEY },
                )
                &&& rules.blob(middle, bin) == Scalar::one()
                &&& forall|x: Scalar, y: Scalar|
                    #![trigger rules.blob(x, bin), rules.blob(y, bin)]
                    rules.difference(x, middle).is_finite() && rules.difference(y, middle) == rules.difference(
                        x,
                        middle,
                    ).negated() ==> rules.blob(x, bin) == rules.blob(y, bin)
                &&& forall|x: Scalar, y: Scalar|
                    #![trigger rules.blob(x, bin), rules.blob(y, bin)]
                    rules.whole_power(rules.difference(y, middle), 2).is_finite() && rules.whole_power(
                        rules.difference(x, middle),
                        2,
                    ).le(rules.whole_power(rules.difference(y, middle), 2)) && rules.whole_power(
                        rules.difference(x, middle),
                        2,
                    ).is_finite() ==> rules.blob(y, bin).le(rules.blob(x, bin))
                &&& forall|x: Scalar|
                    rules.difference(x, middle) == rules.quotient(Scalar::one(), rules.of_count(POS_BINS))
                        ==> #[trigger] rules.blob(x, bin) == rules.exponential((Scalar { key: HALF_KEY }).negated())
            },
{
    let bins = rules.of_count(POS_BINS);
    let place = rules.sum(rules.of_count(bin), Scalar { key: HALF_KEY });
    let middle = rules.product(place, rules.quotient(Scalar::one(), bins));
    let sharpness = rules.quotient(rules.whole_power(bins, 2), Scalar { key: TWO_KEY });
    assert(rules.product(middle, bins) == place);
    assert(rules.difference(middle, middle) == Scalar::zero());
    assert(Scalar::zero().negated() == Scalar::zero());
    assert(rules.product(Scalar::zero(), sharpness) == Scalar::zero());
    assert(rules.blob(middle, bin) == Scalar::one());
    assert forall|x: Scalar, y: Scalar|
        #![trigger rules.blob(x, bin), rules.blob(y, bin)]
        rules.whole_power(rules.difference(y, middle), 2).is_finite() && rules.whole_power(
            rules.difference(x, middle),
            2,
        ).le(rules.whole_power(rules.difference(y, middle), 2)) && rules.whole_power(
            rules.difference(x, middle),
            2,
        ).is_finite() implies rules.blob(y, bin).le(rules.blob(x, bin)) by {
        let near = rules.whole_power(rules.difference(x, middle), 2).negated();
        let far = rules.whole_power(rules.difference(y, middle), 2).negated();
        assert(far.le(near) && far.is_finite() && near.is_finite());
        assert(rules.product(far, sharpness).le(rules.product(near, sharpness)));
        assert(rules.exponential(rules.product(far, sharpness)).le(rules.exponential(rules.product(near, sharpness))));
    }
    assert forall|x: Scalar, y: Scalar|
        #![trigger rules.blob(x, bin), rules.blob(y, bin)]
        rules.difference(x, middle).is_finite() && rules.difference(y, middle) == rules.difference(
            x,
            middle,
        ).negated() implies rules.blob(x, bin) == rules.blob(y, bin) by {
        assert(rules.whole_power(rules.difference(x, middle).negated(), 2) == rules.whole_power(
            rules.difference(x, middle),
            2,
        ));
    }
}

/// The features of an axis: one for where the position lies between its bounds, and
/// the sine and the cosine of the direction in half turns.
pub proof fn law_features_have_their_places(rules: ArithRules, pos: Point3, dir: Point3, lo: Point3, hi: Point3, axis: usize)
    requires
        axis < 3,
        rules.keeps_ones(),
        rules.of_count(1) == Scalar::one(),
    ensures
        ({
            let f = rules.features(pos, dir, lo, hi);
            let angle = rules.product(Scalar { key: PI_KEY }, dir.coord(axis));
            &&& f.len() == 9
            &&& f[axis as int] == rules.blob(rules.placed(pos.coord(axis), lo.coord(axis), hi.coord(axis)), 0)
            &&& f[axis + 3] == rules.sine(angle)
            &&& f[axis + 6] == rules.cosine(angle)
        }),
{
    let f = rules.features(pos, dir, lo, hi);
    assert(f[axis as int] == rules.feature(pos, dir, lo, hi, axis as int));
    assert(f[axis + 3] == rules.feature(pos, dir, lo, hi, axis + 3));
    assert(f[axis + 6] == rules.feature(pos, dir, lo, hi, axis + 6));
    assert(1u32 << 0u32 == 1u32) by (bit_vector);
    assert(rules.product(Scalar::one(), Scalar { key: PI_KEY }) == Scalar { key: PI_KEY });
}

/// What is fed for an axis depends on nothing but the position and the direction along
/// it.
pub proof fn law_axes_are_fed_apart(
    rules: ArithRules,
    pos: Point3,
    dir: Point3,
    other_pos: Point3,
    other_dir: Point3,
    lo: Point3,
    hi: Point3,
    axis: usize,
)
    requires
        axis < 3,
    ensures
        ({
            let f = rules.features(pos, dir, lo, hi);
            let g = rules.features(other_pos, other_dir, lo, hi);
            &&& pos.coord(axis) == other_pos.coord(axis) ==> f[axis as int] == g[axis as int]
            &&& dir.coord(axis) == other_dir.coord(axis) ==> f[axis + 3] == g[axis + 3] && f[axis + 6] == g[axis + 6]
        }),
{
    let f = rules.features(pos, dir, lo, hi);
    let g = rules.features(other_pos, other_dir, lo, hi);
    assert(f[axis as int] == rules.feature(pos, dir, lo, hi, axis as int));
    assert(g[axis as int] == rules.feature(other_pos, other_dir, lo, hi, axis as int));
    assert(f[axis + 3] == rules.feature(pos, dir, lo, hi, axis + 3));
    assert(g[axis + 3] == rules.feature(other_pos, other_dir, lo, hi, axis + 3));
    assert(f[axis + 6] == rules.feature(pos, dir, lo, hi, axis + 6));
    assert(g[axis + 6] == rules.feature(other_pos, other_dir, lo, hi, axis + 6));
}

} // verus!
