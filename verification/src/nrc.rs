//! A wider network for a radiance cache, trained by relative errors.
use vstd::prelude::*;
use crate::arith::{Arith, ArithRules};
use crate::nirc::mlp::{activate, is_finite_layer, one_at, silu_deriv, zero_layer, Layer, LayerView, Net};
use crate::nirc::optimizer::{update_layer, Adam, StepSettings, BETA1_KEY, BETA2_KEY, EPSILON_KEY};
use crate::scalar::Scalar;

verus! {

/// Number of inputs.
pub const INPUT_DIM: usize = 64;

/// Number of values between layers.
pub const HIDDEN_DIM: usize = 64;

/// Number of outputs.
pub const OUTPUT_DIM: usize = 64;

/// Key of a hundredth: keeps the loss finite where nothing is lit.
pub const LOSS_FLOOR_KEY: i32 = 0x3c23_d70a;

/// Ad hoc multi level perceptron used in the radiance cache.
pub struct NrcMlp {
    pub l1: Layer,
    pub l2: Layer,
    pub l3: Layer,
    pub l4: Layer,
}

/// How the loss changes with each weight and bias.
pub struct NrcMlpGradients {
    pub l1: Layer,
    pub l2: Layer,
    pub l3: Layer,
    pub l4: Layer,
}

/// The intermediate values of a forward pass.
pub struct NrcForwardCache {
    pub x: Vec<Scalar>,
    pub z1: Vec<Scalar>,
    pub a1: Vec<Scalar>,
    pub z2: Vec<Scalar>,
    pub a2: Vec<Scalar>,
    pub z3: Vec<Scalar>,
    pub a3: Vec<Scalar>,
    pub z4: Vec<Scalar>,
}

/// What went through each layer.
#[verifier::ext_equal]
pub struct NrcPass {
    pub x: Seq<Scalar>,
    pub z1: Seq<Scalar>,
    pub a1: Seq<Scalar>,
    pub z2: Seq<Scalar>,
    pub a2: Seq<Scalar>,
    pub z3: Seq<Scalar>,
    pub a3: Seq<Scalar>,
    pub z4: Seq<Scalar>,
}

impl View for NrcMlp {
    type V = Net;

    open spec fn view(&self) -> Net {
        Net { l1: self.l1@, l2: self.l2@, l3: self.l3@, l4: self.l4@ }
    }
}

impl View for NrcMlpGradients {
    type V = Net;

    open spec fn view(&self) -> Net {
        Net { l1: self.l1@, l2: self.l2@, l3: self.l3@, l4: self.l4@ }
    }
}

impl View for NrcForwardCache {
    type V = NrcPass;

    open spec fn view(&self) -> NrcPass {
        NrcPass {
            x: self.x@,
            z1: self.z1@,
            a1: self.a1@,
            z2: self.z2@,
            a2: self.a2@,
            z3: self.z3@,
            a3: self.a3@,
            z4: self.z4@,
        }
    }
}

impl NrcPass {
    /// Whether every layer was passed.
    pub open spec fn valid(self) -> bool {
        &&& self.x.len() == INPUT_DIM
        &&& self.z1.len() == HIDDEN_DIM
        &&& self.a1.len() == HIDDEN_DIM
        &&& self.z2.len() == HIDDEN_DIM
        &&& self.a2.len() == HIDDEN_DIM
        &&& self.z3.len() == HIDDEN_DIM
        &&& self.a3.len() == HIDDEN_DIM
        &&& self.z4.len() == OUTPUT_DIM
    }
}

/// Whether the layers fit together.
pub open spec fn is_wide(net: Net) -> bool {
    &&& net.l1.is_shape(HIDDEN_DIM as int, INPUT_DIM as int)
    &&& net.l2.is_shape(HIDDEN_DIM as int, HIDDEN_DIM as int)
    &&& net.l3.is_shape(HIDDEN_DIM as int, HIDDEN_DIM as int)
    &&& net.l4.is_shape(OUTPUT_DIM as int, HIDDEN_DIM as int)
}

/// A network of zeros.
pub open spec fn wide_zeros() -> Net {
    Net {
        l1: zero_layer(HIDDEN_DIM as nat, INPUT_DIM as nat),
        l2: zero_layer(HIDDEN_DIM as nat, HIDDEN_DIM as nat),
        l3: zero_layer(HIDDEN_DIM as nat, HIDDEN_DIM as nat),
        l4: zero_layer(OUTPUT_DIM as nat, HIDDEN_DIM as nat),
    }
}

impl ArithRules {
    /// The first `k` weighted inputs of an output, added in order.
    pub open spec fn mixed(self, l: LayerView, x: Seq<Scalar>, i: int, k: nat) -> Scalar
        decreases k,
    {
        let last = self.product(l.weight(i, k - 1), x[k - 1]);
        if k <= 1 {
            last
        } else {
            self.sum(last, self.mixed(l, x, i, (k - 1) as nat))
        }
    }

    /// The outputs of a layer: the weighted inputs, then the bias.
    pub open spec fn affine(self, l: LayerView, x: Seq<Scalar>) -> Seq<Scalar> {
        Seq::new(l.rows, |i: int| self.sum(self.mixed(l, x, i, l.cols), l.b[i]))
    }

    /// The first `k` weighted errors behind an input, added in order.
    pub open spec fn blamed(self, l: LayerView, delta: Seq<Scalar>, j: int, k: nat) -> Scalar
        decreases k,
    {
        let last = self.product(l.weight(k - 1, j), delta[k - 1]);
        if k <= 1 {
            last
        } else {
            self.sum(last, self.blamed(l, delta, j, (k - 1) as nat))
        }
    }

    /// The errors before a layer, from those behind it and what went into its
    /// activation.
    pub open spec fn blame(self, l: LayerView, delta: Seq<Scalar>, z: Seq<Scalar>) -> Seq<Scalar> {
        Seq::new(l.cols, |j: int| self.product(self.blamed(l, delta, j, l.rows), self.silu_deriv(z[j])))
    }

    /// The gradient of a layer for one sample.
    pub open spec fn layer_gradient(self, delta: Seq<Scalar>, a: Seq<Scalar>) -> LayerView {
        LayerView {
            rows: delta.len(),
            cols: a.len(),
            w: Seq::new(
                delta.len() * a.len(),
                |k: int| self.product(delta[k % (delta.len() as int)], a[k / (delta.len() as int)]),
            ),
            b: delta,
        }
    }

    /// The intermediate values of a forward pass.
    pub open spec fn wide_pass(self, net: Net, x: Seq<Scalar>) -> NrcPass {
        let z1 = self.affine(net.l1, x);
        let a1 = self.activated(z1);
        let z2 = self.affine(net.l2, a1);
        let a2 = self.activated(z2);
        let z3 = self.affine(net.l3, a2);
        let a3 = self.activated(z3);
        let z4 = self.affine(net.l4, a3);
        NrcPass { x, z1, a1, z2, a2, z3, a3, z4 }
    }

    /// What a network puts out: three layers with an activation, one without.
    pub open spec fn wide_forward(self, net: Net, x: Seq<Scalar>) -> Seq<Scalar> {
        let a1 = self.activated(self.affine(net.l1, x));
        let a2 = self.activated(self.affine(net.l2, a1));
        let a3 = self.activated(self.affine(net.l3, a2));
        self.affine(net.l4, a3)
    }

    /// The gradient of a network for one sample.
    pub open spec fn wide_backward(self, net: Net, pass: NrcPass, dl_dy: Seq<Scalar>) -> Net {
        let delta3 = self.blame(net.l4, dl_dy, pass.z3);
        let delta2 = self.blame(net.l3, delta3, pass.z2);
        let delta1 = self.blame(net.l2, delta2, pass.z1);
        Net {
            l1: self.layer_gradient(delta1, pass.x),
            l2: self.layer_gradient(delta2, pass.a1),
            l3: self.layer_gradient(delta3, pass.a2),
            l4: self.layer_gradient(dl_dy, pass.a3),
        }
    }

    /// How the relative squared error of an output changes with it. What the error
    /// is measured against counts as constant.
    pub open spec fn relative_slope(self, pred: Scalar, target: Scalar) -> Scalar {
        self.quotient(
            self.difference(pred, target),
            self.sum(self.product(pred, pred), Scalar { key: LOSS_FLOOR_KEY }),
        )
    }

    /// How the loss changes with each output.
    pub open spec fn relative_slopes(self, pred: Seq<Scalar>, target: Seq<Scalar>) -> Seq<Scalar> {
        Seq::new(OUTPUT_DIM as nat, |i: int| self.relative_slope(pred[i], target[i]))
    }
}

/// Where a weight stands in its layer.
fn weight_at(l: &Layer, i: usize, j: usize) -> (r: Scalar)
    requires
        l@.is_shape(l.rows as int, l.cols as int),
        i < l.rows,
        j < l.cols,
    ensures
        r == l@.weight(i as int, j as int),
{
    assert(j * l.rows + i < l.rows * l.cols) by (nonlinear_arith)
        requires
            i < l.rows,
            j < l.cols,
    ;
    assert(0 <= j * l.rows) by (nonlinear_arith);
    assert(l.w.len() == l.rows * l.cols);
    l.w[j * l.rows + i]
}

/// The outputs of a layer.
fn apply<M: Arith>(math: &M, l: &Layer, x: &Vec<Scalar>) -> (r: Vec<Scalar>)
    requires
        l@.is_shape(l.rows as int, l.cols as int),
        l.cols > 0,
        x.len() == l.cols,
    ensures
        r.len() == l.rows,
        forall|rules: ArithRules| #[trigger] rules.describe(*math) ==> r@ == rules.affine(l@, x@),
{
    let mut out: Vec<Scalar> = Vec::new();
    let mut i: usize = 0;
    while i < l.rows
        invariant
            i <= l.rows,
            out.len() == i,
            l@.is_shape(l.rows as int, l.cols as int),
            l.cols > 0,
            x.len() == l.cols,
            forall|rules: ArithRules, n: int|
                #![trigger rules.describe(*math), out@[n]]
                rules.describe(*math) && 0 <= n < i ==> out@[n] == rules.sum(
                    rules.mixed(l@, x@, n, l@.cols),
                    l@.b[n],
                ),
        decreases l.rows - i,
    {
        let mut y = math.product(weight_at(l, i, 0), x[0]);
        let mut j: usize = 1;
        while j < l.cols
            invariant
                i < l.rows,
                1 <= j <= l.cols,
                l@.is_shape(l.rows as int, l.cols as int),
                x.len() == l.cols,
                forall|rules: ArithRules| #[trigger]
                    rules.describe(*math) ==> y == rules.mixed(l@, x@, i as int, j as nat),
            decreases l.cols - j,
        {
            y = math.sum(math.product(weight_at(l, i, j), x[j]), y);
            j = j + 1;
        }
        let v = math.sum(y, l.b[i]);
        out.push(v);
        i = i + 1;
    }
    proof {
        assert forall|rules: ArithRules| #[trigger] rules.describe(*math) implies out@ == rules.affine(l@, x@) by {
            assert(out@ =~= rules.affine(l@, x@));
        }
    }
    out
}

/// The errors before a layer.
fn pull<M: Arith>(math: &M, l: &Layer, delta: &Vec<Scalar>, z: &Vec<Scalar>) -> (r: Vec<Scalar>)
    requires
        l@.is_shape(l.rows as int, l.cols as int),
        l.rows > 0,
        delta.len() == l.rows,
        z.len() == l.cols,
    ensures
        r.len() == l.cols,
        forall|rules: ArithRules| #[trigger] rules.describe(*math) ==> r@ == rules.blame(l@, delta@, z@),
{
    let mut out: Vec<Scalar> = Vec::new();
    let mut j: usize = 0;
    while j < l.cols
        invariant
            j <= l.cols,
            out.len() == j,
            l@.is_shape(l.rows as int, l.cols as int),
            l.rows > 0,
            delta.len() == l.rows,
            z.len() == l.cols,
            forall|rules: ArithRules, n: int|
                #![trigger rules.describe(*math), out@[n]]
                rules.describe(*math) && 0 <= n < j ==> out@[n] == rules.product(
                    rules.blamed(l@, delta@, n, l@.rows),
                    rules.silu_deriv(z@[n]),
                ),
        decreases l.cols - j,
    {
        let mut y = math.product(weight_at(l, 0, j), delta[0]);
        let mut i: usize = 1;
        while i < l.rows
            invariant
                j < l.cols,
                1 <= i <= l.rows,
                l@.is_shape(l.rows as int, l.cols as int),
                delta.len() == l.rows,
                forall|rules: ArithRules| #[trigger]
                    rules.describe(*math) ==> y == rules.blamed(l@, delta@, j as int, i as nat),
            decreases l.rows - i,
        {
            y = math.sum(math.product(weight_at(l, i, j), delta[i]), y);
            i = i + 1;
        }
        let v = math.product(y, silu_deriv(math, z[j]));
        out.push(v);
        j = j + 1;
    }
    proof {
        assert forall|rules: ArithRules| #[trigger] rules.describe(*math) implies out@ == rules.blame(
            l@,
            delta@,
            z@,
        ) by {
            assert(out@ =~= rules.blame(l@, delta@, z@));
        }
    }
    out
}

/// The gradient of a layer for one sample.
fn gradient<M: Arith>(math: &M, delta: Vec<Scalar>, a: &Vec<Scalar>) -> (r: Layer)
    requires
        delta.len() > 0,
        delta.len() * a.len() <= usize::MAX,
    ensures
        r@.is_shape(delta.len() as int, a.len() as int),
        forall|rules: ArithRules| #[trigger] rules.describe(*math) ==> r@ == rules.layer_gradient(delta@, a@),
{
    let rows: usize = delta.len();
    let cols: usize = a.len();
    let n: usize = rows * cols;
    let mut w: Vec<Scalar> = Vec::new();
    let mut k: usize = 0;
    while k < n
        invariant
            k <= n,
            w.len() == k,
            n == rows * cols,
            rows > 0,
            rows == delta.len(),
            cols == a.len(),
            forall|rules: ArithRules, j: int|
                #![trigger rules.describe(*math), w@[j]]
                rules.describe(*math) && 0 <= j < k ==> w@[j] == rules.product(
                    delta@[j % (rows as int)],
                    a@[j / (rows as int)],
                ),
        decreases n - k,
    {
        assert(k / rows < cols) by (nonlinear_arith)
            requires
                k < rows * cols,
                rows > 0,
        ;
        let v = math.product(delta[k % rows], a[k / rows]);
        w.push(v);
        k = k + 1;
    }
    proof {
        assert forall|rules: ArithRules| #[trigger] rules.describe(*math) implies w@ == rules.layer_gradient(
            delta@,
            a@,
        ).w by {
            assert(w@ =~= rules.layer_gradient(delta@, a@).w);
        }
    }
    Layer { rows, cols, w, b: delta }
}

impl NrcMlpGradients {
    /// A gradient of zeros.
    pub fn zeros() -> (r: NrcMlpGradients)
        ensures
            r@ == wide_zeros(),
            is_wide(r@),
    {
        NrcMlpGradients {
            l1: Layer::zeros(HIDDEN_DIM, INPUT_DIM),
            l2: Layer::zeros(HIDDEN_DIM, HIDDEN_DIM),
            l3: Layer::zeros(HIDDEN_DIM, HIDDEN_DIM),
            l4: Layer::zeros(OUTPUT_DIM, HIDDEN_DIM),
        }
    }
}

impl NrcMlp {
    /// Pure inference forward pass.
    /// Use this for the 95% of rays that do not contribute to training.
    pub fn forward<M: Arith>(&self, math: &M, x: &Vec<Scalar>) -> (r: Vec<Scalar>)
        requires
            is_wide(self@),
            x.len() == INPUT_DIM,
        ensures
            r.len() == OUTPUT_DIM,
            forall|rules: ArithRules| #[trigger] rules.describe(*math) ==> r@ == rules.wide_forward(self@, x@),
    {
        let z1 = apply(math, &self.l1, x);
        let a1 = activate(math, &z1);
        let z2 = apply(math, &self.l2, &a1);
        let a2 = activate(math, &z2);
        let z3 = apply(math, &self.l3, &a2);
        let a3 = activate(math, &z3);
        apply(math, &self.l4, &a3)
    }

    /// Training forward pass. Returns the output and the cache needed for
    /// backpropagation. Use this only for the 5% of training rays.
    pub fn forward_for_training<M: Arith>(&self, math: &M, x: Vec<Scalar>) -> (r: (Vec<Scalar>, NrcForwardCache))
        requires
            is_wide(self@),
            x.len() == INPUT_DIM,
        ensures
            r.0.len() == OUTPUT_DIM,
            r.1@.valid(),
            forall|rules: ArithRules| #[trigger]
                rules.describe(*math) ==> r.0@ == rules.wide_forward(self@, x@) && r.1@ == rules.wide_pass(self@, x@),
    {
        let z1 = apply(math, &self.l1, &x);
        let a1 = activate(math, &z1);
        let z2 = apply(math, &self.l2, &a1);
        let a2 = activate(math, &z2);
        let z3 = apply(math, &self.l3, &a2);
        let a3 = activate(math, &z3);
        let z4 = apply(math, &self.l4, &a3);
        let mut out: Vec<Scalar> = Vec::new();
        let mut i: usize = 0;
        while i < z4.len()
            invariant
                i <= z4.len(),
                out@ == z4@.take(i as int),
            decreases z4.len() - i,
        {
            out.push(z4[i]);
            i = i + 1;
            assert(out@ =~= z4@.take(i as int));
        }
        assert(out@ =~= z4@);
        (out, NrcForwardCache { x, z1, a1, z2, a2, z3, a3, z4 })
    }

    /// Backward pass computing the gradients. `dl_dy` is the gradient of the loss
    /// with respect to the network's output.
    pub fn backward<M: Arith>(&self, math: &M, cache: &NrcForwardCache, dl_dy: Vec<Scalar>) -> (r: NrcMlpGradients)
        requires
            is_wide(self@),
            cache@.valid(),
            dl_dy.len() == OUTPUT_DIM,
        ensures
            is_wide(r@),
            forall|rules: ArithRules| #[trigger]
                rules.describe(*math) ==> r@ == rules.wide_backward(self@, cache@, dl_dy@),
    {
        let delta3 = pull(math, &self.l4, &dl_dy, &cache.z3);
        let delta2 = pull(math, &self.l3, &delta3, &cache.z2);
        let delta1 = pull(math, &self.l2, &delta2, &cache.z1);
        let l4 = gradient(math, dl_dy, &cache.a3);
        let l3 = gradient(math, delta3, &cache.a2);
        let l2 = gradient(math, delta2, &cache.a1);
        let l1 = gradient(math, delta1, &cache.x);
        NrcMlpGradients { l1, l2, l3, l4 }
    }

    /// Computes the loss derivative dL/dy using a relative L2 loss. `target` is the
    /// raw radiance from the path tracer, `pred` the one that the network predicts.
    pub fn compute_loss_derivative<M: Arith>(math: &M, pred: &Vec<Scalar>, target: &Vec<Scalar>) -> (r: Vec<Scalar>)
        requires
            pred.len() == OUTPUT_DIM,
            target.len() == OUTPUT_DIM,
        ensures
            r.len() == OUTPUT_DIM,
            forall|rules: ArithRules| #[trigger]
                rules.describe(*math) ==> r@ == rules.relative_slopes(pred@, target@),
    {
        let mut out: Vec<Scalar> = Vec::new();
        let mut i: usize = 0;
        while i < OUTPUT_DIM
            invariant
                i <= OUTPUT_DIM,
                out.len() == i,
                pred.len() == OUTPUT_DIM,
                target.len() == OUTPUT_DIM,
                forall|rules: ArithRules, n: int|
                    #![trigger rules.describe(*math), out@[n]]
                    rules.describe(*math) && 0 <= n < i ==> out@[n] == rules.relative_slope(pred@[n], target@[n]),
            decreases OUTPUT_DIM - i,
        {
            let diff = math.difference(pred[i], target[i]);
            let normalizer = math.sum(math.product(pred[i], pred[i]), Scalar { key: LOSS_FLOOR_KEY });
            out.push(math.quotient(diff, normalizer));
            i = i + 1;
        }
        proof {
            assert forall|rules: ArithRules| #[trigger] rules.describe(*math) implies out@ == rules.relative_slopes(
                pred@,
                target@,
            ) by {
                assert(out@ =~= rules.relative_slopes(pred@, target@));
            }
        }
        out
    }
}

/// Adam Optimizer state.
/// Holds the first moment (m) and second moment (v) for every parameter in the network.
pub struct AdamOptimizer {
    pub m: NrcMlpGradients,
    pub v: NrcMlpGradients,
    pub beta1: Scalar,
    pub beta2: Scalar,
    pub epsilon: Scalar,
    pub lr: Scalar,
    pub t: u32,
}

impl View for AdamOptimizer {
    type V = Adam;

    open spec fn view(&self) -> Adam {
        Adam {
            m: self.m@,
            v: self.v@,
            beta1: self.beta1,
            beta2: self.beta2,
            epsilon: self.epsilon,
            lr: self.lr,
            t: self.t,
        }
    }
}

impl AdamOptimizer {
    /// Creates a new Adam optimizer with default parameters.
    pub fn new(learning_rate: Scalar) -> (r: AdamOptimizer)
        ensures
            r@ == (Adam {
                m: wide_zeros(),
                v: wide_zeros(),
                beta1: Scalar { key: BETA1_KEY },
                beta2: Scalar { key: BETA2_KEY },
                epsilon: Scalar { key: EPSILON_KEY },
                lr: learning_rate,
                t: 0,
            }),
            is_wide(r@.m),
            is_wide(r@.v),
    {
        AdamOptimizer {
            m: NrcMlpGradients::zeros(),
            v: NrcMlpGradients::zeros(),
            beta1: Scalar { key: BETA1_KEY },
            beta2: Scalar { key: BETA2_KEY },
            epsilon: Scalar { key: EPSILON_KEY },
            lr: learning_rate,
            t: 0,
        }
    }

    /// Applies the accumulated gradients to the network's weights and biases.
    pub fn step<M: Arith>(&mut self, math: &M, network: &mut NrcMlp, grads: &NrcMlpGradients)
        requires
            is_wide(old(self)@.m),
            is_wide(old(self)@.v),
            old(self).t < u32::MAX,
            is_wide(old(network)@),
            is_wide(grads@),
        ensures
            is_wide(final(self)@.m),
            is_wide(final(self)@.v),
            final(self).t == old(self).t + 1,
            is_wide(final(network)@),
            forall|rules: ArithRules| #[trigger]
                rules.describe(*math) ==> final(self)@ == rules.adam_after(old(self)@, grads@) && final(network)@
                    == rules.net_after(old(self)@, old(network)@, grads@),
    {
        self.t = self.t + 1;
        let b1_t = math.difference(Scalar::one(), math.whole_power(self.beta1, self.t as i32));
        let b2_t = math.difference(Scalar::one(), math.whole_power(self.beta2, self.t as i32));
        let rate = math.product(self.lr, math.quotient(math.root(b2_t), b1_t));
        let s = StepSettings { beta1: self.beta1, beta2: self.beta2, rate, epsilon: self.epsilon };
        update_layer(math, s, &mut network.l1, &mut self.m.l1, &mut self.v.l1, &grads.l1);
        update_layer(math, s, &mut network.l2, &mut self.m.l2, &mut self.v.l2, &grads.l2);
        update_layer(math, s, &mut network.l3, &mut self.m.l3, &mut self.v.l3, &grads.l3);
        update_layer(math, s, &mut network.l4, &mut self.m.l4, &mut self.v.l4, &grads.l4);
    }
}

/// The cache as a whole; it holds nothing of its own.
pub struct NeuralRadianceCache {}

/// A pass that is made for training gives what inference gives.
pub proof fn law_wide_pass_infers(rules: ArithRules, net: Net, x: Seq<Scalar>)
    ensures
        rules.wide_pass(net, x).z4 == rules.wide_forward(net, x),
{
}

proof fn lemma_mixed_one(rules: ArithRules, l: LayerView, i: int, j: int, k: nat)
    requires
        rules.keeps_ones(),
        rules.keeps_zeros(),
        is_finite_layer(l),
        0 <= i < l.rows,
        1 <= k <= l.cols,
    ensures
        rules.mixed(l, one_at(l.cols, j), i, k) == (if 0 <= j < k {
            l.weight(i, j)
        } else {
            Scalar::zero()
        }),
    decreases k,
{
    let x = one_at(l.cols, j);
    let w = l.weight(i, k - 1);
    assert(rules.product(w, Scalar::one()) == w);
    assert(rules.product(w, Scalar::zero()) == Scalar::zero());
    if k > 1 {
        lemma_mixed_one(rules, l, i, j, (k - 1) as nat);
        if 0 <= j < k - 1 {
            assert(rules.sum(Scalar::zero(), l.weight(i, j)) == l.weight(i, j));
        } else if j == k - 1 {
            assert(rules.sum(w, Scalar::zero()) == w);
        } else {
            assert(rules.sum(Scalar::zero(), Scalar::zero()) == Scalar::zero());
        }
    }
}

/// A layer of the wider network reads its weights: fed nothing it puts out its biases,
/// and fed one at one input the weights from that input, added to them.
pub proof fn law_wide_layer_reads_its_weights(rules: ArithRules, l: LayerView, i: int, j: int)
    requires
        rules.keeps_ones(),
        rules.keeps_zeros(),
        is_finite_layer(l),
        0 <= i < l.rows,
        0 <= j < l.cols,
        l.rows == l.b.len(),
    ensures
        rules.affine(l, one_at(l.cols, -1))[i] == l.b[i],
        rules.affine(l, one_at(l.cols, j))[i] == rules.sum(l.w[j * l.rows + i], l.b[i]),
{
    lemma_mixed_one(rules, l, i, j, l.cols);
    lemma_mixed_one(rules, l, i, -1, l.cols);
}

/// The gradient of a weight is the error behind it, times what went in, and that of a
/// bias the error: for every weight its own.
pub proof fn law_wide_weights_learn_from_their_input(rules: ArithRules, delta: Seq<Scalar>, a: Seq<Scalar>, i: int, j: int)
    requires
        0 <= i < delta.len(),
        0 <= j < a.len(),
    ensures
        rules.layer_gradient(delta, a).weight(i, j) == rules.product(delta[i], a[j]),
        rules.layer_gradient(delta, a).b[i] == delta[i],
{
    let rows = delta.len() as int;
    vstd::arithmetic::div_mod::lemma_fundamental_div_mod_converse(j * rows + i, rows, j, i);
    assert(0 <= j * rows + i < rows * a.len()) by (nonlinear_arith)
        requires
            0 <= i < rows,
            0 <= j < a.len(),
    ;
}

proof fn lemma_blamed_one(rules: ArithRules, l: LayerView, i: int, j: int, k: nat)
    requires
        rules.keeps_ones(),
        rules.keeps_zeros(),
        is_finite_layer(l),
        0 <= j < l.cols,
        1 <= k <= l.rows,
    ensures
        rules.blamed(l, one_at(l.rows, i), j, k) == (if 0 <= i < k {
            l.weight(i, j)
        } else {
            Scalar::zero()
        }),
    decreases k,
{
    let w = l.weight(k - 1, j);
    assert(rules.product(w, Scalar::one()) == w);
    assert(rules.product(w, Scalar::zero()) == Scalar::zero());
    if k > 1 {
        lemma_blamed_one(rules, l, i, j, (k - 1) as nat);
        if 0 <= i < k - 1 {
            assert(rules.sum(Scalar::zero(), l.weight(i, j)) == l.weight(i, j));
        } else if i == k - 1 {
            assert(rules.sum(w, Scalar::zero()) == w);
        } else {
            assert(rules.sum(Scalar::zero(), Scalar::zero()) == Scalar::zero());
        }
    }
}

/// An error behind a layer is blamed on its inputs by the weights to it, times the
/// slope of what went into the activation: one error of one blames each input by its
/// weight.
pub proof fn law_wide_errors_are_blamed_by_weight(rules: ArithRules, l: LayerView, z: Seq<Scalar>, i: int, j: int)
    requires
        rules.keeps_ones(),
        rules.keeps_zeros(),
        is_finite_layer(l),
        0 <= i < l.rows,
        0 <= j < l.cols,
    ensures
        rules.blame(l, one_at(l.rows, i), z)[j] == rules.product(l.w[j * l.rows + i], rules.silu_deriv(z[j])),
{
    lemma_blamed_one(rules, l, i, j, l.rows);
}

/// Each layer of the wider network learns from what went into it and from the error
/// behind it.
pub proof fn law_every_wide_layer_learns(rules: ArithRules, net: Net, pass: NrcPass, dl_dy: Seq<Scalar>)
    ensures
        ({
            let r = rules.wide_backward(net, pass, dl_dy);
            let d3 = rules.blame(net.l4, dl_dy, pass.z3);
            let d2 = rules.blame(net.l3, d3, pass.z2);
            let d1 = rules.blame(net.l2, d2, pass.z1);
            &&& r.l4.b == dl_dy && r.l3.b == d3 && r.l2.b == d2 && r.l1.b == d1
            &&& r.l4 == rules.layer_gradient(dl_dy, pass.a3)
            &&& r.l3 == rules.layer_gradient(d3, pass.a2)
            &&& r.l2 == rules.layer_gradient(d2, pass.a1)
            &&& r.l1 == rules.layer_gradient(d1, pass.x)
        }),
{
}

/// The wider network is its layers in turn, with an activation between them.
pub proof fn law_wide_layers_follow_each_other(rules: ArithRules, net: Net, x: Seq<Scalar>)
    ensures
        ({
            let hidden = |l: LayerView, x: Seq<Scalar>| rules.affine(l, x).map_values(|z: Scalar| rules.silu(z));
            rules.wide_forward(net, x) == rules.affine(net.l4, hidden(net.l3, hidden(net.l2, hidden(net.l1, x))))
        }),
{
}

/// The slope of the relative error points away from the target, is nothing at it, and
/// times the square of the output and the floor it is the error.
pub proof fn law_relative_slope_points_away_from_the_target(rules: ArithRules, pred: Scalar, target: Scalar)
    requires
        rules.keeps_zeros(),
        rules.keeps_selves(),
        rules.orders_sums(),
        rules.orders_products(),
        pred.is_finite(),
        target.is_finite(),
        rules.difference(pred, target).is_finite(),
        ({
            let d = rules.sum(rules.product(pred, pred), Scalar { key: LOSS_FLOOR_KEY });
            let e = rules.difference(pred, target);
            d.is_finite() && Scalar::zero().lt(d) && rules.product(rules.quotient(e, d), d) == e
        }),
    ensures
        target.le(pred) ==> Scalar::zero().le(rules.relative_slope(pred, target)),
        pred.le(target) ==> rules.relative_slope(pred, target).le(Scalar::zero()),
        pred == target ==> rules.relative_slope(pred, target) == Scalar::zero(),
        rules.product(
            rules.relative_slope(pred, target),
            rules.sum(rules.product(pred, pred), Scalar { key: LOSS_FLOOR_KEY }),
        ) == rules.difference(pred, target),
{
    let d = rules.sum(rules.product(pred, pred), Scalar { key: LOSS_FLOOR_KEY });
    assert(rules.difference(target, target) == Scalar::zero());
    assert(rules.quotient(Scalar::zero(), d) == Scalar::zero());
    if target.le(pred) {
        assert(rules.difference(target, target).le(rules.difference(pred, target)));
        assert(rules.quotient(Scalar::zero(), d).le(rules.quotient(rules.difference(pred, target), d)));
    }
    if pred.le(target) {
        assert(rules.difference(pred, target).le(rules.difference(target, target)));
        assert(rules.quotient(rules.difference(pred, target), d).le(rules.quotient(Scalar::zero(), d)));
    }
}

} // verus!
