//! The Adam optimizer.
use vstd::prelude::*;
use crate::arith::{Arith, ArithRules};
use crate::nirc::mlp::{zero_net, Layer, LayerView, Net, NircMlp, NircMlpGradients};
use crate::scalar::Scalar;

verus! {

/// Key of nine tenths.
pub const BETA1_KEY: i32 = 0x3f66_6666;

/// Key of nine hundred ninety-nine thousandths.
pub const BETA2_KEY: i32 = 0x3f7f_be77;

/// Key of a hundred-millionth.
pub const EPSILON_KEY: i32 = 0x322b_cc77;

/// First and second moment for every parameter, and how many steps were made.
pub struct AdamOptimizer {
    pub m: NircMlpGradients,
    pub v: NircMlpGradients,
    pub beta1: Scalar,
    pub beta2: Scalar,
    pub epsilon: Scalar,
    pub lr: Scalar,
    pub t: u32,
}

/// The moments and settings of an optimizer.
#[verifier::ext_equal]
pub struct Adam {
    pub m: Net,
    pub v: Net,
    pub beta1: Scalar,
    pub beta2: Scalar,
    pub epsilon: Scalar,
    pub lr: Scalar,
    pub t: u32,
}

impl View for AdamOptimizer {
    type V = Adam;

    open spec fn view(&self) -> Adam {
        Adam {
            m: self.m@,
            v: self.v@,
            beta1: self.beta1,
            beta2: self.beta2,
            epsilon: self.epsilon,
            lr: self.lr,
            t: self.t,
        }
    }
}

impl Adam {
    /// Whether there is a moment for every parameter.
    pub open spec fn valid(self) -> bool {
        self.m.valid() && self.v.valid()
    }
}

/// An optimizer that has not stepped.
pub open spec fn fresh_adam(lr: Scalar) -> Adam {
    Adam {
        m: zero_net(),
        v: zero_net(),
        beta1: Scalar { key: BETA1_KEY },
        beta2: Scalar { key: BETA2_KEY },
        epsilon: Scalar { key: EPSILON_KEY },
        lr,
        t: 0,
    }
}

impl ArithRules {
    /// The moving average of gradients.
    pub open spec fn first_moment(self, m: Scalar, g: Scalar, beta1: Scalar) -> Scalar {
        self.sum(self.product(beta1, m), self.product(self.difference(Scalar::one(), beta1), g))
    }

    /// The moving average of squared gradients.
    pub open spec fn second_moment(self, v: Scalar, g: Scalar, beta2: Scalar) -> Scalar {
        self.sum(
            self.product(beta2, v),
            self.product(self.product(self.difference(Scalar::one(), beta2), g), g),
        )
    }

    /// A parameter, moved against its averaged gradient.
    pub open spec fn moved(self, p: Scalar, m: Scalar, v: Scalar, rate: Scalar, epsilon: Scalar) -> Scalar {
        self.difference(p, self.quotient(self.product(rate, m), self.sum(self.root(v), epsilon)))
    }

    /// The averages of gradients.
    pub open spec fn first_moments(self, m: Seq<Scalar>, g: Seq<Scalar>, beta1: Scalar) -> Seq<Scalar> {
        Seq::new(m.len(), |i: int| self.first_moment(m[i], g[i], beta1))
    }

    /// The averages of squared gradients.
    pub open spec fn second_moments(self, v: Seq<Scalar>, g: Seq<Scalar>, beta2: Scalar) -> Seq<Scalar> {
        Seq::new(v.len(), |i: int| self.second_moment(v[i], g[i], beta2))
    }

    /// Parameters, moved against their averaged gradients.
    pub open spec fn all_moved(
        self,
        p: Seq<Scalar>,
        m: Seq<Scalar>,
        v: Seq<Scalar>,
        rate: Scalar,
        epsilon: Scalar,
    ) -> Seq<Scalar> {
        Seq::new(p.len(), |i: int| self.moved(p[i], m[i], v[i], rate, epsilon))
    }

    /// The averages of gradients of a layer.
    pub open spec fn layer_first(self, m: LayerView, g: LayerView, beta1: Scalar) -> LayerView {
        LayerView { w: self.first_moments(m.w, g.w, beta1), b: self.first_moments(m.b, g.b, beta1), ..m }
    }

    /// The averages of squared gradients of a layer.
    pub open spec fn layer_second(self, v: LayerView, g: LayerView, beta2: Scalar) -> LayerView {
        LayerView { w: self.second_moments(v.w, g.w, beta2), b: self.second_moments(v.b, g.b, beta2), ..v }
    }

    /// A layer, moved against its averaged gradients.
    pub open spec fn layer_moved(
        self,
        p: LayerView,
        m: LayerView,
        v: LayerView,
        rate: Scalar,
        epsilon: Scalar,
    ) -> LayerView {
        LayerView {
            w: self.all_moved(p.w, m.w, v.w, rate, epsilon),
            b: self.all_moved(p.b, m.b, v.b, rate, epsilon),
            ..p
        }
    }

    /// The rate of a step: the moments start at zero, which is made up for.
    pub open spec fn step_rate(self, opt: Adam, t: u32) -> Scalar {
        let b1 = self.difference(Scalar::one(), self.whole_power(opt.beta1, t as i32));
        let b2 = self.difference(Scalar::one(), self.whole_power(opt.beta2, t as i32));
        self.product(opt.lr, self.quotient(self.root(b2), b1))
    }

    /// An optimizer after a step.
    pub open spec fn adam_after(self, opt: Adam, grads: Net) -> Adam {
        Adam {
            m: Net {
                l1: self.layer_first(opt.m.l1, grads.l1, opt.beta1),
                l2: self.layer_first(opt.m.l2, grads.l2, opt.beta1),
                l3: self.layer_first(opt.m.l3, grads.l3, opt.beta1),
                l4: self.layer_first(opt.m.l4, grads.l4, opt.beta1),
            },
            v: Net {
                l1: self.layer_second(opt.v.l1, grads.l1, opt.beta2),
                l2: self.layer_second(opt.v.l2, grads.l2, opt.beta2),
                l3: self.layer_second(opt.v.l3, grads.l3, opt.beta2),
                l4: self.layer_second(opt.v.l4, grads.l4, opt.beta2),
            },
            t: (opt.t + 1) as u32,
            ..opt
        }
    }

    /// A network after a step of an optimizer.
    pub open spec fn net_after(self, opt: Adam, net: Net, grads: Net) -> Net {
        let next = self.adam_after(opt, grads);
        let rate = self.step_rate(opt, next.t);
        Net {
            l1: self.layer_moved(net.l1, next.m.l1, next.v.l1, rate, opt.epsilon),
            l2: self.layer_moved(net.l2, next.m.l2, next.v.l2, rate, opt.epsilon),
            l3: self.layer_moved(net.l3, next.m.l3, next.v.l3, rate, opt.epsilon),
            l4: self.layer_moved(net.l4, next.m.l4, next.v.l4, rate, opt.epsilon),
        }
    }
}

/// The settings of one step.
#[derive(Clone, Copy, PartialEq, Eq, Structural, Debug)]
pub struct StepSettings {
    pub beta1: Scalar,
    pub beta2: Scalar,
    pub rate: Scalar,
    pub epsilon: Scalar,
}

/// One step for a list of parameters.
fn update_list<M: Arith>(
    math: &M,
    s: StepSettings,
    p: &mut Vec<Scalar>,
    m: &mut Vec<Scalar>,
    v: &mut Vec<Scalar>,
    g: &Vec<Scalar>,
)
    requires
        old(p).len() == g.len(),
        old(m).len() == g.len(),
        old(v).len() == g.len(),
    ensures
        final(p).len() == g.len(),
        final(m).len() == g.len(),
        final(v).len() == g.len(),
        forall|rules: ArithRules| #[trigger]
            rules.describe(*math) ==> {
                &&& final(m)@ == rules.first_moments(old(m)@, g@, s.beta1)
                &&& final(v)@ == rules.second_moments(old(v)@, g@, s.beta2)
                &&& final(p)@ == rules.all_moved(old(p)@, final(m)@, final(v)@, s.rate, s.epsilon)
            },
{
    let ghost p0 = p@;
    let ghost m0 = m@;
    let ghost v0 = v@;
    let n: usize = g.len();
    let mut i: usize = 0;
    while i < n
        invariant
            i <= n,
            n == g.len(),
            n == p.len(),
            n == m.len(),
            n == v.len(),
            n == p0.len(),
            n == m0.len(),
            n == v0.len(),
            forall|j: int| i <= j < n ==> p@[j] == p0[j],
            forall|j: int| i <= j < n ==> m@[j] == m0[j],
            forall|j: int| i <= j < n ==> v@[j] == v0[j],
            forall|rules: ArithRules, j: int|
                #![trigger rules.describe(*math), m@[j]]
                rules.describe(*math) && 0 <= j < i ==> m@[j] == rules.first_moment(m0[j], g@[j], s.beta1),
            forall|rules: ArithRules, j: int|
                #![trigger rules.describe(*math), v@[j]]
                rules.describe(*math) && 0 <= j < i ==> v@[j] == rules.second_moment(v0[j], g@[j], s.beta2),
            forall|rules: ArithRules, j: int|
                #![trigger rules.describe(*math), p@[j]]
                rules.describe(*math) && 0 <= j < i ==> p@[j] == rules.moved(
                    p0[j],
                    m@[j],
                    v@[j],
                    s.rate,
                    s.epsilon,
                ),
        decreases n - i,
    {
        let mi = math.sum(
            math.product(s.beta1, m[i]),
            math.product(math.difference(Scalar::one(), s.beta1), g[i]),
        );
        m[i] = mi;
        let vi = math.sum(
            math.product(s.beta2, v[i]),
            math.product(math.product(math.difference(Scalar::one(), s.beta2), g[i]), g[i]),
        );
        v[i] = vi;
        let pi = math.difference(
            p[i],
            math.quotient(math.product(s.rate, mi), math.sum(math.root(vi), s.epsilon)),
        );
        p[i] = pi;
        i = i + 1;
    }
    proof {
        assert forall|rules: ArithRules| #[trigger] rules.describe(*math) implies m@ == rules.first_moments(
            m0,
            g@,
            s.beta1,
        ) && v@ == rules.second_moments(v0, g@, s.beta2) && p@ == rules.all_moved(p0, m@, v@, s.rate, s.epsilon) by {
            assert(m@ =~= rules.first_moments(m0, g@, s.beta1));
            assert(v@ =~= rules.second_moments(v0, g@, s.beta2));
            assert(p@ =~= rules.all_moved(p0, m@, v@, s.rate, s.epsilon));
        }
    }
}

/// Whether three layers have the shape of a gradient.
pub open spec fn same_shape(a: LayerView, g: LayerView) -> bool {
    a.w.len() == g.w.len() && a.b.len() == g.b.len()
}

/// One step for a layer.
pub(crate) fn update_layer<M: Arith>(math: &M, s: StepSettings, p: &mut Layer, m: &mut Layer, v: &mut Layer, g: &Layer)
    requires
        same_shape(old(p)@, g@),
        same_shape(old(m)@, g@),
        same_shape(old(v)@, g@),
    ensures
        same_shape(final(p)@, g@),
        same_shape(final(m)@, g@),
        same_shape(final(v)@, g@),
        final(p)@.rows == old(p)@.rows && final(p)@.cols == old(p)@.cols,
        final(m)@.rows == old(m)@.rows && final(m)@.cols == old(m)@.cols,
        final(v)@.rows == old(v)@.rows && final(v)@.cols == old(v)@.cols,
        forall|rules: ArithRules| #[trigger]
            rules.describe(*math) ==> {
                &&& final(m)@ == rules.layer_first(old(m)@, g@, s.beta1)
                &&& final(v)@ == rules.layer_second(old(v)@, g@, s.beta2)
                &&& final(p)@ == rules.layer_moved(old(p)@, final(m)@, final(v)@, s.rate, s.epsilon)
            },
{
    update_list(math, s, &mut p.w, &mut m.w, &mut v.w, &g.w);
    update_list(math, s, &mut p.b, &mut m.b, &mut v.b, &g.b);
}

impl AdamOptimizer {
    /// An optimizer on the heap that has not stepped.
    pub fn new_boxed(learning_rate: Scalar) -> (r: Box<AdamOptimizer>)
        ensures
            r@ == fresh_adam(learning_rate),
            r@.valid(),
    {
        Box::new(
            AdamOptimizer {
                m: NircMlpGradients::zeros(),
                v: NircMlpGradients::zeros(),
                beta1: Scalar { key: BETA1_KEY },
                beta2: Scalar { key: BETA2_KEY },
                epsilon: Scalar { key: EPSILON_KEY },
                lr: learning_rate,
                t: 0,
            },
        )
    }

    /// Applies a gradient to the network.
    pub fn step<M: Arith>(&mut self, math: &M, network: &mut NircMlp, grads: &NircMlpGradients)
        requires
            old(self)@.valid(),
            old(self).t < u32::MAX,
            old(network)@.valid(),
            grads@.valid(),
        ensures
            final(self)@.valid(),
            final(self).t == old(self).t + 1,
            final(network)@.valid(),
            forall|rules: ArithRules| #[trigger]
                rules.describe(*math) ==> final(self)@ == rules.adam_after(old(self)@, grads@) && final(network)@
                    == rules.net_after(old(self)@, old(network)@, grads@),
    {
        self.t = self.t + 1;
        let b1_t = math.difference(Scalar::one(), math.whole_power(self.beta1, self.t as i32));
        let b2_t = math.difference(Scalar::one(), math.whole_power(self.beta2, self.t as i32));
        let rate = math.product(self.lr, math.quotient(math.root(b2_t), b1_t));
        let s = StepSettings { beta1: self.beta1, beta2: self.beta2, rate, epsilon: self.epsilon };
        update_layer(math, s, &mut network.l1, &mut self.m.l1, &mut self.v.l1, &grads.l1);
        update_layer(math, s, &mut network.l2, &mut self.m.l2, &mut self.v.l2, &grads.l2);
        update_layer(math, s, &mut network.l3, &mut self.m.l3, &mut self.v.l3, &grads.l3);
        update_layer(math, s, &mut network.l4, &mut self.m.l4, &mut self.v.l4, &grads.l4);
    }
}

/// Moments are moving averages: where the gradient is what the average holds already,
/// the average stays; with a decay of nothing it is the gradient alone, and with a
/// decay of one the gradient does not count. Squared gradients average likewise.
pub proof fn law_moments_are_averages(rules: ArithRules, m: Scalar, v: Scalar, g: Scalar, beta: Scalar)
    requires
        rules.keeps_ones(),
        rules.keeps_zeros(),
        rules.keeps_selves(),
        m.is_finite(),
        v.is_finite(),
        g.is_finite(),
        rules.product(g, g).is_finite(),
    ensures
        rules.sum(
            rules.product(beta, m),
            rules.product(rules.difference(Scalar::one(), beta), m),
        ) == m ==> rules.first_moment(m, m, beta) == m,
        rules.first_moment(m, g, Scalar::zero()) == g,
        rules.first_moment(m, g, Scalar::one()) == m,
        rules.second_moment(v, g, Scalar::zero()) == rules.product(g, g),
        rules.second_moment(v, g, Scalar::one()) == v,
        rules.sum(
            rules.product(beta, v),
            rules.product(rules.product(rules.difference(Scalar::one(), beta), g), g),
        ) == v ==> rules.second_moment(v, g, beta) == v,
{
    assert(rules.difference(Scalar::one(), Scalar::zero()) == Scalar::one());
    assert(rules.difference(Scalar::one(), Scalar::one()) == Scalar::zero());
}

/// A moving average lies between what it was and the gradient: where the gradient is
/// greater, a greater one never makes it less.
pub proof fn law_first_moment_follows_the_gradient(rules: ArithRules, m: Scalar, low: Scalar, high: Scalar, beta: Scalar)
    requires
        rules.orders_sums(),
        rules.orders_products(),
        low.is_finite() && high.is_finite() && low.le(high),
        rules.difference(Scalar::one(), beta).is_finite() && Scalar::zero().le(rules.difference(Scalar::one(), beta)),
        rules.product(beta, m).is_finite(),
        rules.product(rules.difference(Scalar::one(), beta), low).is_finite(),
        rules.product(rules.difference(Scalar::one(), beta), high).is_finite(),
    ensures
        rules.first_moment(m, low, beta).le(rules.first_moment(m, high, beta)),
{
}

/// A parameter moves against its averaged gradient: down where that is positive, up
/// where it is negative, and not at all where it is nothing.
pub proof fn law_parameters_move_against_the_gradient(
    rules: ArithRules,
    p: Scalar,
    m: Scalar,
    v: Scalar,
    rate: Scalar,
    epsilon: Scalar,
)
    requires
        rules.keeps_zeros(),
        rules.orders_sums(),
        rules.orders_products(),
        p.is_finite(),
        m.is_finite(),
        rate.is_finite() && Scalar::zero().le(rate),
        rules.product(rate, m).is_finite(),
        ({
            let spread = rules.sum(rules.root(v), epsilon);
            &&& spread.is_finite() && Scalar::zero().lt(spread)
            &&& rules.quotient(rules.product(rate, m), spread).is_finite()
        }),
    ensures
        m == Scalar::zero() ==> rules.moved(p, m, v, rate, epsilon) == p,
        Scalar::zero().le(m) ==> rules.moved(p, m, v, rate, epsilon).le(p),
        m.le(Scalar::zero()) ==> p.le(rules.moved(p, m, v, rate, epsilon)),
{
    let spread = rules.sum(rules.root(v), epsilon);
    let step = rules.quotient(rules.product(rate, m), spread);
    assert(rules.product(rate, Scalar::zero()) == Scalar::zero());
    assert(rules.quotient(Scalar::zero(), spread) == Scalar::zero());
    assert(rules.difference(p, Scalar::zero()) == p);
    if Scalar::zero().le(m) {
        assert(rules.product(rate, Scalar::zero()).le(rules.product(rate, m)));
        assert(rules.quotient(Scalar::zero(), spread).le(step));
        assert(rules.difference(p, step).le(rules.difference(p, Scalar::zero())));
    }
    if m.le(Scalar::zero()) {
        assert(rules.product(rate, m).le(rules.product(rate, Scalar::zero())));
        assert(step.le(rules.quotient(Scalar::zero(), spread)));
        assert(rules.difference(p, Scalar::zero()).le(rules.difference(p, step)));
    }
}

/// How far a parameter moves, times the root of its averaged square and the small
/// number beside it, is the rate times its averaged gradient, wherever dividing and
/// taking away can be undone.
pub proof fn law_step_is_scaled_by_the_spread(
    rules: ArithRules,
    p: Scalar,
    m: Scalar,
    v: Scalar,
    rate: Scalar,
    epsilon: Scalar,
)
    requires
        ({
            let spread = rules.sum(rules.root(v), epsilon);
            let step = rules.quotient(rules.product(rate, m), spread);
            &&& rules.difference(p, rules.difference(p, step)) == step
            &&& rules.product(step, spread) == rules.product(rate, m)
        }),
    ensures
        rules.product(
            rules.difference(p, rules.moved(p, m, v, rate, epsilon)),
            rules.sum(rules.root(v), epsilon),
        ) == rules.product(rate, m),
{
}

/// The rate of a step makes up for moments that start at nothing: times what the first
/// decay leaves of one after as many steps, it is the learning rate times the root of
/// what the second decay leaves.
pub proof fn law_rate_makes_up_for_the_start(rules: ArithRules, opt: Adam, t: u32)
    requires
        ({
            let b1 = rules.difference(Scalar::one(), rules.whole_power(opt.beta1, t as i32));
            let b2 = rules.difference(Scalar::one(), rules.whole_power(opt.beta2, t as i32));
            rules.undoes_part(opt.lr, rules.root(b2), b1)
        }),
    ensures
        rules.product(
            rules.step_rate(opt, t),
            rules.difference(Scalar::one(), rules.whole_power(opt.beta1, t as i32)),
        ) == rules.product(
            opt.lr,
            rules.root(rules.difference(Scalar::one(), rules.whole_power(opt.beta2, t as i32))),
        ),
{
}

/// A step updates every parameter of every layer by its own gradient and moments, and
/// counts itself first.
pub proof fn law_step_reaches_every_parameter(rules: ArithRules, opt: Adam, net: Net, grads: Net, i: int)
    requires
        opt.t < u32::MAX,
        opt.valid(),
        net.valid(),
        grads.valid(),
    ensures
        ({
            let next = rules.adam_after(opt, grads);
            let after = rules.net_after(opt, net, grads);
            let rate = rules.step_rate(opt, (opt.t + 1) as u32);
            let eps = opt.epsilon;
            &&& next.t == opt.t + 1
            &&& next.lr == opt.lr && next.beta1 == opt.beta1 && next.beta2 == opt.beta2 && next.epsilon == opt.epsilon
            &&& 0 <= i < net.l1.w.len() && i < opt.m.l1.w.len() && i < opt.v.l1.w.len() ==> after.l1.w[i] == rules.moved(
                net.l1.w[i],
                rules.first_moment(opt.m.l1.w[i], grads.l1.w[i], opt.beta1),
                rules.second_moment(opt.v.l1.w[i], grads.l1.w[i], opt.beta2),
                rate,
                eps,
            )
            &&& 0 <= i < net.l2.w.len() && i < opt.m.l2.w.len() && i < opt.v.l2.w.len() ==> after.l2.w[i] == rules.moved(
                net.l2.w[i],
                rules.first_moment(opt.m.l2.w[i], grads.l2.w[i], opt.beta1),
                rules.second_moment(opt.v.l2.w[i], grads.l2.w[i], opt.beta2),
                rate,
                eps,
            )
            &&& 0 <= i < net.l3.w.len() && i < opt.m.l3.w.len() && i < opt.v.l3.w.len() ==> after.l3.w[i] == rules.moved(
                net.l3.w[i],
                rules.first_moment(opt.m.l3.w[i], grads.l3.w[i], opt.beta1),
                rules.second_moment(opt.v.l3.w[i], grads.l3.w[i], opt.beta2),
                rate,
                eps,
            )
            &&& 0 <= i < net.l4.b.len() && i < opt.m.l4.b.len() && i < opt.v.l4.b.len() ==> after.l4.b[i] == rules.moved(
                net.l4.b[i],
                rules.first_moment(opt.m.l4.b[i], grads.l4.b[i], opt.beta1),
                rules.second_moment(opt.v.l4.b[i], grads.l4.b[i], opt.beta2),
                rate,
                eps,
            )
        }),
{
}

/// A step leaves no weight and no bias out: what is true of some is true of all, and
/// the moments that it leaves are those that it moved by.
pub proof fn law_step_keeps_its_moments(rules: ArithRules, opt: Adam, net: Net, grads: Net)
    ensures
        ({
            let next = rules.adam_after(opt, grads);
            let after = rules.net_after(opt, net, grads);
            let rate = rules.step_rate(opt, next.t);
            let moves = |p: Seq<Scalar>, q: Seq<Scalar>, m: Seq<Scalar>, v: Seq<Scalar>|
                q == Seq::new(p.len(), |i: int| rules.moved(p[i], m[i], v[i], rate, opt.epsilon));
            &&& moves(net.l1.w, after.l1.w, next.m.l1.w, next.v.l1.w)
            &&& moves(net.l1.b, after.l1.b, next.m.l1.b, next.v.l1.b)
            &&& moves(net.l2.w, after.l2.w, next.m.l2.w, next.v.l2.w)
            &&& moves(net.l2.b, after.l2.b, next.m.l2.b, next.v.l2.b)
            &&& moves(net.l3.w, after.l3.w, next.m.l3.w, next.v.l3.w)
            &&& moves(net.l3.b, after.l3.b, next.m.l3.b, next.v.l3.b)
            &&& moves(net.l4.w, after.l4.w, next.m.l4.w, next.v.l4.w)
            &&& moves(net.l4.b, after.l4.b, next.m.l4.b, next.v.l4.b)
        }),
        ({
            let next = rules.adam_after(opt, grads);
            let follows = |m: Seq<Scalar>, n: Seq<Scalar>, g: Seq<Scalar>|
                n == Seq::new(m.len(), |i: int| rules.first_moment(m[i], g[i], opt.beta1));
            let spreads = |v: Seq<Scalar>, n: Seq<Scalar>, g: Seq<Scalar>|
                n == Seq::new(v.len(), |i: int| rules.second_moment(v[i], g[i], opt.beta2));
            &&& follows(opt.m.l1.w, next.m.l1.w, grads.l1.w) && follows(opt.m.l1.b, next.m.l1.b, grads.l1.b)
            &&& follows(opt.m.l2.w, next.m.l2.w, grads.l2.w) && follows(opt.m.l2.b, next.m.l2.b, grads.l2.b)
            &&& follows(opt.m.l3.w, next.m.l3.w, grads.l3.w) && follows(opt.m.l3.b, next.m.l3.b, grads.l3.b)
            &&& follows(opt.m.l4.w, next.m.l4.w, grads.l4.w) && follows(opt.m.l4.b, next.m.l4.b, grads.l4.b)
            &&& spreads(opt.v.l1.w, next.v.l1.w, grads.l1.w) && spreads(opt.v.l1.b, next.v.l1.b, grads.l1.b)
            &&& spreads(opt.v.l2.w, next.v.l2.w, grads.l2.w) && spreads(opt.v.l2.b, next.v.l2.b, grads.l2.b)
            &&& spreads(opt.v.l3.w, next.v.l3.w, grads.l3.w) && spreads(opt.v.l3.b, next.v.l3.b, grads.l3.b)
            &&& spreads(opt.v.l4.w, next.v.l4.w, grads.l4.w) && spreads(opt.v.l4.b, next.v.l4.b, grads.l4.b)
        }),
{
}

} // verus!
