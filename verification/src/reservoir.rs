//! Reservoirs of light samples: a stream of weighted candidates, one of which is
//! kept with a probability proportional to its weight.
use vstd::prelude::*;
use crate::arith::{Arith, ArithRules};
use crate::pcg32::Pcg32;
use crate::scalar::{Point3, Scalar};
use crate::scene::{black, Color};

verus! {

/// A reservoir of light samples.
#[derive(Clone, Copy, PartialEq, Eq, Structural, Debug)]
pub struct Reservoir {
    /// World-space point on the selected light. For infinite lights, a point very
    /// far along the direction.
    pub light_pos: Point3,
    /// Radiance of the selected candidate.
    pub li: Color,
    /// Sum of the weights of all candidates.
    pub w_sum: Scalar,
    /// Number of candidates streamed (0 = uninitialized).
    pub m: u32,
    /// Contribution weight from the previous frame.
    pub big_w_stored: Scalar,
    /// Where the reservoir was filled, for the decision whether to reuse it.
    pub hit_pos: Point3,
    pub hit_normal: Point3,
}

/// A reservoir without candidates.
pub open spec fn empty_reservoir() -> Reservoir {
    Reservoir {
        light_pos: Point3::origin(),
        li: black(),
        w_sum: Scalar::zero(),
        m: 0,
        big_w_stored: Scalar::zero(),
        hit_pos: Point3::origin(),
        hit_normal: Point3::origin(),
    }
}

impl Default for Reservoir {
    /// A reservoir without candidates.
    fn default() -> (r: Reservoir)
        ensures
            r == empty_reservoir(),
    {
        Reservoir {
            light_pos: Point3::origin(),
            li: black(),
            w_sum: Scalar::zero(),
            m: 0,
            big_w_stored: Scalar::zero(),
            hit_pos: Point3::origin(),
            hit_normal: Point3::origin(),
        }
    }
}

impl ArithRules {
    /// A reservoir after one candidate more, which is kept if a uniform number
    /// falls into its share of the weights.
    pub open spec fn streamed(self, r: Reservoir, light_pos: Point3, li: Color, w: Scalar, u: Scalar) -> Reservoir {
        let w_sum = self.sum(r.w_sum, w);
        let m = (r.m + 1) as u32;
        if self.product(u, w_sum).lt(w) {
            Reservoir { light_pos, li, w_sum, m, ..r }
        } else {
            Reservoir { w_sum, m, ..r }
        }
    }

    /// The unbiased contribution weight, zero if the target density is.
    pub open spec fn contribution_weight(self, r: Reservoir, p_hat: Scalar) -> Scalar {
        if Scalar::zero().lt(p_hat) {
            self.quotient(r.w_sum, self.product(self.of_count(r.m as usize), p_hat))
        } else {
            Scalar::zero()
        }
    }
}

impl Reservoir {
    /// Stream one candidate into the reservoir. `w` is its weight: target density
    /// over source density.
    pub fn update<M: Arith>(&mut self, math: &M, light_pos: Point3, li: Color, w: Scalar, rng: &mut Pcg32)
        requires
            old(self).m < u32::MAX,
        ensures
            final(rng)@ == old(rng)@.next(),
            final(self).m == old(self).m + 1,
            final(self).light_pos == old(self).light_pos || final(self).light_pos == light_pos,
            forall|rules: ArithRules| #[trigger]
                rules.describe(*math) ==> *final(self) == rules.streamed(
                    *old(self),
                    light_pos,
                    li,
                    w,
                    old(rng)@.value(),
                ),
    {
        self.w_sum = math.sum(self.w_sum, w);
        self.m = self.m + 1;
        let u = rng.next_f32();
        if math.product(u, self.w_sum).lt(w) {
            self.light_pos = light_pos;
            self.li = li;
        }
    }

    /// Whether a candidate of some weight was streamed.
    #[verifier::allow_in_spec]
    pub fn is_valid(&self) -> bool
        returns
            self.m > 0 && Scalar::zero().lt(self.w_sum),
    {
        self.m > 0 && Scalar::zero().lt(self.w_sum)
    }

    /// Unbiased contribution weight: the sum of weights over the number of
    /// candidates and the target density.
    pub fn big_w<M: Arith>(&self, math: &M, p_hat: Scalar) -> (r: Scalar)
        ensures
            !Scalar::zero().lt(p_hat) ==> r == Scalar::zero(),
            forall|rules: ArithRules| #[trigger] rules.describe(*math) ==> r == rules.contribution_weight(*self, p_hat),
    {
        if Scalar::zero().lt(p_hat) {
            math.quotient(self.w_sum, math.product(math.of_count(self.m as usize), p_hat))
        } else {
            Scalar::zero()
        }
    }
}

/// A reservoir without candidates is not valid.
pub proof fn law_empty_reservoir_is_invalid()
    ensures
        !empty_reservoir().is_valid(),
{
}

/// The first candidate of positive weight is kept, where adding to zero changes
/// nothing and a part of a weight is less than the weight.
pub proof fn law_first_candidate_is_kept(
    rules: ArithRules,
    light_pos: Point3,
    li: Color,
    w: Scalar,
    u: Scalar,
)
    requires
        rules.sum(Scalar::zero(), w) == w,
        rules.product(u, w).lt(w),
    ensures
        ({
            let r = rules.streamed(empty_reservoir(), light_pos, li, w, u);
            r.light_pos == light_pos && r.li == li && r.w_sum == w && r.m == 1
        }),
{
}

/// The contribution weight, times the number of candidates and the target density,
/// is the sum of all weights, wherever dividing can be undone.
pub proof fn law_contribution_spreads_the_weights(rules: ArithRules, r: Reservoir, p_hat: Scalar)
    requires
        Scalar::zero().lt(p_hat),
        ({
            let d = rules.product(rules.of_count(r.m as usize), p_hat);
            rules.product(rules.quotient(r.w_sum, d), d) == r.w_sum
        }),
    ensures
        rules.product(rules.contribution_weight(r, p_hat), rules.product(rules.of_count(r.m as usize), p_hat)) == r.w_sum,
{
}

/// A candidate counts whether it is kept or not; it is kept exactly if its part of
/// all weights lies above the number drawn, and then with its place and its light
/// together; and one without weight is never kept.
pub proof fn law_candidates_are_kept_by_weight(
    rules: ArithRules,
    r: Reservoir,
    light_pos: Point3,
    li: Color,
    w: Scalar,
    u: Scalar,
)
    requires
        r.m < u32::MAX,
    ensures
        ({
            let next = rules.streamed(r, light_pos, li, w, u);
            let kept = rules.product(u, rules.sum(r.w_sum, w)).lt(w);
            &&& next.m == r.m + 1
            &&& next.w_sum == rules.sum(r.w_sum, w)
            &&& kept ==> next.light_pos == light_pos && next.li == li
            &&& !kept ==> next.light_pos == r.light_pos && next.li == r.li
            &&& next.hit_pos == r.hit_pos && next.hit_normal == r.hit_normal && next.big_w_stored == r.big_w_stored
            &&& w == Scalar::zero() && Scalar::zero().le(rules.product(u, rules.sum(r.w_sum, w))) ==> next.light_pos
                == r.light_pos && next.li == r.li
        }),
{
}

} // verus!
