//! The network of a radiance cache: four layers, the first three followed by an
//! activation.
use vstd::prelude::*;
use crate::arith::{Arith, ArithRules};
use crate::microfacet::TWO_KEY;
use crate::nirc::encoding::{INPUT_DIM, OUTPUT_DIM};
use crate::pcg32::{seeded_128, Pcg32, Stream};
use crate::scalar::Scalar;

verus! {

/// Number of values between layers.
pub const HIDDEN_DIM: usize = 16;

/// A layer: a weight for each pair of an output and an input, inputs first, and
/// a bias for each output.
#[derive(Clone)]
pub struct Layer {
    pub rows: usize,
    pub cols: usize,
    pub w: Vec<Scalar>,
    pub b: Vec<Scalar>,
}

/// The weights and biases of a layer.
#[verifier::ext_equal]
pub struct LayerView {
    pub rows: nat,
    pub cols: nat,
    pub w: Seq<Scalar>,
    pub b: Seq<Scalar>,
}

impl View for Layer {
    type V = LayerView;

    open spec fn view(&self) -> LayerView {
        LayerView { rows: self.rows as nat, cols: self.cols as nat, w: self.w@, b: self.b@ }
    }
}

impl LayerView {
    /// Whether this is a layer from `cols` inputs to `rows` outputs.
    pub open spec fn is_shape(self, rows: int, cols: int) -> bool {
        &&& self.rows == rows
        &&& self.cols == cols
        &&& self.w.len() == rows * cols
        &&& self.b.len() == rows
    }

    /// The weight from an input to an output.
    pub open spec fn weight(self, i: int, j: int) -> Scalar {
        self.w[j * self.rows + i]
    }
}

/// The network of a radiance cache.
#[derive(Clone)]
pub struct NircMlp {
    pub l1: Layer,
    pub l2: Layer,
    pub l3: Layer,
    pub l4: Layer,
}

/// The layers of a network.
#[verifier::ext_equal]
pub struct Net {
    pub l1: LayerView,
    pub l2: LayerView,
    pub l3: LayerView,
    pub l4: LayerView,
}

impl View for NircMlp {
    type V = Net;

    open spec fn view(&self) -> Net {
        Net { l1: self.l1@, l2: self.l2@, l3: self.l3@, l4: self.l4@ }
    }
}

impl Net {
    /// Whether the layers fit together.
    pub open spec fn valid(self) -> bool {
        &&& self.l1.is_shape(HIDDEN_DIM as int, INPUT_DIM as int)
        &&& self.l2.is_shape(HIDDEN_DIM as int, HIDDEN_DIM as int)
        &&& self.l3.is_shape(HIDDEN_DIM as int, HIDDEN_DIM as int)
        &&& self.l4.is_shape(OUTPUT_DIM as int, HIDDEN_DIM as int)
    }
}

impl ArithRules {
    /// An output of a layer after the first `k` inputs: the bias and the weighted
    /// inputs, added in order.
    pub open spec fn weighted(self, l: LayerView, x: Seq<Scalar>, i: int, k: nat) -> Scalar
        decreases k,
    {
        if k == 0 {
            l.b[i]
        } else {
            self.sum(self.product(l.weight(i, k - 1), x[k - 1]), self.weighted(l, x, i, (k - 1) as nat))
        }
    }

    /// The outputs of a layer.
    pub open spec fn layer_out(self, l: LayerView, x: Seq<Scalar>) -> Seq<Scalar> {
        Seq::new(l.rows, |i: int| self.weighted(l, x, i, l.cols))
    }

    /// The activation: a number times its logistic.
    pub open spec fn silu(self, x: Scalar) -> Scalar {
        self.quotient(x, self.sum(Scalar::one(), self.exponential(x.negated())))
    }

    /// The activation of each of some numbers.
    pub open spec fn activated(self, z: Seq<Scalar>) -> Seq<Scalar> {
        z.map_values(|x: Scalar| self.silu(x))
    }

    /// What a network puts out.
    pub open spec fn forward(self, net: Net, x: Seq<Scalar>) -> Seq<Scalar> {
        let a1 = self.activated(self.layer_out(net.l1, x));
        let a2 = self.activated(self.layer_out(net.l2, a1));
        let a3 = self.activated(self.layer_out(net.l3, a2));
        self.layer_out(net.l4, a3)
    }
}

impl Layer {
    /// The outputs for some inputs.
    pub fn apply<M: Arith>(&self, math: &M, x: &Vec<Scalar>) -> (r: Vec<Scalar>)
        requires
            self@.is_shape(self.rows as int, self.cols as int),
            x.len() == self.cols,
        ensures
            r.len() == self.rows,
            forall|rules: ArithRules| #[trigger] rules.describe(*math) ==> r@ == rules.layer_out(self@, x@),
    {
        let mut out: Vec<Scalar> = Vec::new();
        let mut i: usize = 0;
        while i < self.rows
            invariant
                i <= self.rows,
                out.len() == i,
                self@.is_shape(self.rows as int, self.cols as int),
                x.len() == self.cols,
                forall|rules: ArithRules, n: int|
                    #![trigger rules.describe(*math), out@[n]]
                    rules.describe(*math) && 0 <= n < i ==> out@[n] == rules.weighted(self@, x@, n, self@.cols),
            decreases self.rows - i,
        {
            let mut y = self.b[i];
            let mut j: usize = 0;
            while j < self.cols
                invariant
                    i < self.rows,
                    j <= self.cols,
                    self@.is_shape(self.rows as int, self.cols as int),
                    x.len() == self.cols,
                    forall|rules: ArithRules| #[trigger]
                        rules.describe(*math) ==> y == rules.weighted(self@, x@, i as int, j as nat),
                decreases self.cols - j,
            {
                assert(j * self.rows + i < self.rows * self.cols) by (nonlinear_arith)
                    requires
                        i < self.rows,
                        j < self.cols,
                ;
                assert(0 <= j * self.rows) by (nonlinear_arith);
                assert(self.w.len() == self.rows * self.cols);
                y = math.sum(math.product(self.w[j * self.rows + i], x[j]), y);
                j = j + 1;
            }
            out.push(y);
            i = i + 1;
        }
        proof {
            assert forall|rules: ArithRules| #[trigger] rules.describe(*math) implies out@ == rules.layer_out(
                self@,
                x@,
            ) by {
                assert(out@ =~= rules.layer_out(self@, x@));
            }
        }
        out
    }
}

/// The activation: a number times its logistic.
pub fn silu<M: Arith>(math: &M, x: Scalar) -> (r: Scalar)
    ensures
        forall|rules: ArithRules| #[trigger] rules.describe(*math) ==> r == rules.silu(x),
{
    math.quotient(x, math.sum(Scalar::one(), math.exponential(x.negated())))
}

/// The activation of each of some numbers.
pub fn activate<M: Arith>(math: &M, z: &Vec<Scalar>) -> (r: Vec<Scalar>)
    ensures
        r.len() == z.len(),
        forall|rules: ArithRules| #[trigger] rules.describe(*math) ==> r@ == rules.activated(z@),
{
    let mut out: Vec<Scalar> = Vec::new();
    let mut i: usize = 0;
    while i < z.len()
        invariant
            i <= z.len(),
            out.len() == i,
            forall|rules: ArithRules, n: int|
                #![trigger rules.describe(*math), out@[n]]
                rules.describe(*math) && 0 <= n < i ==> out@[n] == rules.silu(z@[n]),
        decreases z.len() - i,
    {
        out.push(silu(math, z[i]));
        i = i + 1;
    }
    proof {
        assert forall|rules: ArithRules| #[trigger] rules.describe(*math) implies out@ == rules.activated(z@) by {
            assert(out@ =~= rules.activated(z@));
        }
    }
    out
}

impl Layer {
    /// Whether this is a layer from `cols` inputs to `rows` outputs.
    pub fn check_shape(&self, rows: usize, cols: usize) -> (r: bool)
        requires
            rows * cols <= usize::MAX,
        ensures
            r == self@.is_shape(rows as int, cols as int),
    {
        self.rows == rows && self.cols == cols && self.w.len() == rows * cols && self.b.len() == rows
    }
}

impl NircMlp {
    /// Whether the layers fit together.
    pub fn check_layers(&self) -> (r: bool)
        ensures
            r == self@.valid(),
    {
        self.l1.check_shape(HIDDEN_DIM, INPUT_DIM) && self.l2.check_shape(HIDDEN_DIM, HIDDEN_DIM)
            && self.l3.check_shape(HIDDEN_DIM, HIDDEN_DIM) && self.l4.check_shape(OUTPUT_DIM, HIDDEN_DIM)
    }
}

impl NircMlp {
    /// Pure inference forward pass.
    pub fn forward<M: Arith>(&self, math: &M, x: &Vec<Scalar>) -> (r: Vec<Scalar>)
        requires
            self@.valid(),
            x.len() == INPUT_DIM,
        ensures
            r.len() == OUTPUT_DIM,
            forall|rules: ArithRules| #[trigger] rules.describe(*math) ==> r@ == rules.forward(self@, x@),
    {
        let z1 = self.l1.apply(math, x);
        let a1 = activate(math, &z1);
        let z2 = self.l2.apply(math, &a1);
        let a2 = activate(math, &z2);
        let z3 = self.l3.apply(math, &a2);
        let a3 = activate(math, &z3);
        self.l4.apply(math, &a3)
    }
}

/// Key of the number six.
pub const SIX_KEY: i32 = 0x40c0_0000;

/// The seed of the first weights.
pub const INIT_SEED: u128 = 42;

/// The gradient of a network: a change for each weight and bias.
#[derive(Clone)]
pub struct NircMlpGradients {
    pub l1: Layer,
    pub l2: Layer,
    pub l3: Layer,
    pub l4: Layer,
}

impl View for NircMlpGradients {
    type V = Net;

    open spec fn view(&self) -> Net {
        Net { l1: self.l1@, l2: self.l2@, l3: self.l3@, l4: self.l4@ }
    }
}

/// Intermediate values of a forward pass, kept for the backward pass.
#[derive(Clone)]
pub struct NircForwardCache {
    pub x: Vec<Scalar>,
    pub z1: Vec<Scalar>,
    pub a1: Vec<Scalar>,
    pub z2: Vec<Scalar>,
    pub a2: Vec<Scalar>,
    pub z3: Vec<Scalar>,
    pub a3: Vec<Scalar>,
}

/// Intermediate values of a forward pass.
#[verifier::ext_equal]
pub struct Pass {
    pub x: Seq<Scalar>,
    pub z1: Seq<Scalar>,
    pub a1: Seq<Scalar>,
    pub z2: Seq<Scalar>,
    pub a2: Seq<Scalar>,
    pub z3: Seq<Scalar>,
    pub a3: Seq<Scalar>,
}

impl View for NircForwardCache {
    type V = Pass;

    open spec fn view(&self) -> Pass {
        Pass {
            x: self.x@,
            z1: self.z1@,
            a1: self.a1@,
            z2: self.z2@,
            a2: self.a2@,
            z3: self.z3@,
            a3: self.a3@,
        }
    }
}

impl Pass {
    /// Whether there is a value for each input and each hidden unit.
    pub open spec fn valid(self) -> bool {
        &&& self.x.len() == INPUT_DIM
        &&& self.z1.len() == HIDDEN_DIM
        &&& self.a1.len() == HIDDEN_DIM
        &&& self.z2.len() == HIDDEN_DIM
        &&& self.a2.len() == HIDDEN_DIM
        &&& self.z3.len() == HIDDEN_DIM
        &&& self.a3.len() == HIDDEN_DIM
    }
}

/// A list of zeros.
pub open spec fn zeros(n: nat) -> Seq<Scalar> {
    Seq::new(n, |i: int| Scalar::zero())
}

/// A layer of zeros.
pub open spec fn zero_layer(rows: nat, cols: nat) -> LayerView {
    LayerView { rows, cols, w: zeros((rows * cols) as nat), b: zeros(rows) }
}

/// A network of zeros.
pub open spec fn zero_net() -> Net {
    Net {
        l1: zero_layer(HIDDEN_DIM as nat, INPUT_DIM as nat),
        l2: zero_layer(HIDDEN_DIM as nat, HIDDEN_DIM as nat),
        l3: zero_layer(HIDDEN_DIM as nat, HIDDEN_DIM as nat),
        l4: zero_layer(OUTPUT_DIM as nat, HIDDEN_DIM as nat),
    }
}

/// The random stream after `n` draws.
pub open spec fn drawn(rng: Stream, n: nat) -> Stream
    decreases n,
{
    if n == 0 {
        rng
    } else {
        drawn(rng, (n - 1) as nat).next()
    }
}

impl LayerView {
    /// The weights of an input.
    pub open spec fn column(self, j: int) -> Seq<Scalar> {
        Seq::new(self.rows, |i: int| self.weight(i, j))
    }
}

impl ArithRules {
    /// The greatest first weight between layers of two sizes.
    pub open spec fn weight_limit(self, size: usize) -> Scalar {
        self.root(self.quotient(Scalar { key: SIX_KEY }, self.of_count(size)))
    }

    /// A uniform number, spread over both signs up to a limit.
    pub open spec fn spread(self, u: Scalar, limit: Scalar) -> Scalar {
        self.product(self.difference(self.product(u, Scalar { key: TWO_KEY }), Scalar::one()), limit)
    }

    /// First weights, drawn in order.
    pub open spec fn random_weights(self, rng: Stream, n: nat, limit: Scalar) -> Seq<Scalar> {
        Seq::new(n, |i: int| self.spread(drawn(rng, i as nat).value(), limit))
    }

    /// A layer as it starts: random weights, no biases.
    pub open spec fn first_layer(self, rng: Stream, rows: nat, cols: nat) -> LayerView {
        LayerView {
            rows,
            cols,
            w: self.random_weights(rng, (rows * cols) as nat, self.weight_limit((rows + cols) as usize)),
            b: zeros(rows),
        }
    }

    /// A network as it starts, drawn from a fixed seed, layer by layer.
    pub open spec fn first_net(self) -> Net {
        let h = HIDDEN_DIM as nat;
        let rng1 = seeded_128(INIT_SEED);
        let rng2 = drawn(rng1, (h * INPUT_DIM) as nat);
        let rng3 = drawn(rng2, (h * h) as nat);
        let rng4 = drawn(rng3, (h * h) as nat);
        Net {
            l1: self.first_layer(rng1, h, INPUT_DIM as nat),
            l2: self.first_layer(rng2, h, h),
            l3: self.first_layer(rng3, h, h),
            l4: self.first_layer(rng4, OUTPUT_DIM as nat, h),
        }
    }

    /// Two lists, added.
    pub open spec fn added(self, a: Seq<Scalar>, b: Seq<Scalar>) -> Seq<Scalar> {
        Seq::new(a.len(), |i: int| self.sum(a[i], b[i]))
    }

    /// A list, divided.
    pub open spec fn divided(self, a: Seq<Scalar>, n: Scalar) -> Seq<Scalar> {
        Seq::new(a.len(), |i: int| self.quotient(a[i], n))
    }

    /// A list, moved toward another by a share.
    pub open spec fn smoothed(self, a: Seq<Scalar>, b: Seq<Scalar>, alpha: Scalar) -> Seq<Scalar> {
        let beta = self.difference(Scalar::one(), alpha);
        Seq::new(a.len(), |i: int| self.sum(self.product(a[i], beta), self.product(b[i], alpha)))
    }

    /// The weights of a layer, with the product of an error and an input added to each.
    pub open spec fn outer_added(self, w: Seq<Scalar>, rows: int, delta: Seq<Scalar>, a: Seq<Scalar>) -> Seq<Scalar> {
        Seq::new(w.len(), |k: int| self.sum(self.product(a[k / rows], delta[k % rows]), w[k]))
    }

    /// Two layers, added.
    pub open spec fn layer_added(self, l: LayerView, o: LayerView) -> LayerView {
        LayerView { w: self.added(l.w, o.w), b: self.added(l.b, o.b), ..l }
    }

    /// A layer, divided.
    pub open spec fn layer_divided(self, l: LayerView, n: Scalar) -> LayerView {
        LayerView { w: self.divided(l.w, n), b: self.divided(l.b, n), ..l }
    }

    /// A layer, moved toward another by a share.
    pub open spec fn layer_smoothed(self, l: LayerView, o: LayerView, alpha: Scalar) -> LayerView {
        LayerView { w: self.smoothed(l.w, o.w, alpha), b: self.smoothed(l.b, o.b, alpha), ..l }
    }

    /// Two networks, added.
    pub open spec fn net_added(self, n: Net, o: Net) -> Net {
        Net {
            l1: self.layer_added(n.l1, o.l1),
            l2: self.layer_added(n.l2, o.l2),
            l3: self.layer_added(n.l3, o.l3),
            l4: self.layer_added(n.l4, o.l4),
        }
    }

    /// A network, divided.
    pub open spec fn net_divided(self, n: Net, k: Scalar) -> Net {
        Net {
            l1: self.layer_divided(n.l1, k),
            l2: self.layer_divided(n.l2, k),
            l3: self.layer_divided(n.l3, k),
            l4: self.layer_divided(n.l4, k),
        }
    }

    /// A network, moved toward another by a share.
    pub open spec fn net_smoothed(self, n: Net, o: Net, alpha: Scalar) -> Net {
        Net {
            l1: self.layer_smoothed(n.l1, o.l1, alpha),
            l2: self.layer_smoothed(n.l2, o.l2, alpha),
            l3: self.layer_smoothed(n.l3, o.l3, alpha),
            l4: self.layer_smoothed(n.l4, o.l4, alpha),
        }
    }

    /// The derivative of the activation.
    pub open spec fn silu_deriv(self, x: Scalar) -> Scalar {
        let sig = self.quotient(Scalar::one(), self.sum(Scalar::one(), self.exponential(x.negated())));
        let f = self.product(x, sig);
        self.sum(f, self.product(sig, self.difference(Scalar::one(), f)))
    }

    /// The intermediate values of a forward pass.
    pub open spec fn pass(self, net: Net, x: Seq<Scalar>) -> Pass {
        let z1 = self.layer_out(net.l1, x);
        let a1 = self.activated(z1);
        let z2 = self.layer_out(net.l2, a1);
        let a2 = self.activated(z2);
        let z3 = self.layer_out(net.l3, a2);
        let a3 = self.activated(z3);
        Pass { x, z1, a1, z2, a2, z3, a3 }
    }

    /// The errors before a layer, from those behind it and what went into its
    /// activation.
    pub open spec fn pulled(self, l: LayerView, delta: Seq<Scalar>, z: Seq<Scalar>) -> Seq<Scalar> {
        Seq::new(l.cols, |j: int| self.product(self.inner(l.column(j), delta), self.silu_deriv(z[j])))
    }

    /// The gradient of a layer, with that of one sample added.
    pub open spec fn layer_backward(self, g: LayerView, delta: Seq<Scalar>, a: Seq<Scalar>) -> LayerView {
        LayerView { w: self.outer_added(g.w, g.rows as int, delta, a), b: self.added(g.b, delta), ..g }
    }

    /// The gradient of a network, with that of one sample added.
    pub open spec fn backward(self, net: Net, pass: Pass, dl_dy: Seq<Scalar>, grads: Net) -> Net {
        let delta3 = self.pulled(net.l4, dl_dy, pass.z3);
        let delta2 = self.pulled(net.l3, delta3, pass.z2);
        let delta1 = self.pulled(net.l2, delta2, pass.z1);
        Net {
            l1: self.layer_backward(grads.l1, delta1, pass.x),
            l2: self.layer_backward(grads.l2, delta2, pass.a1),
            l3: self.layer_backward(grads.l3, delta3, pass.a2),
            l4: self.layer_backward(grads.l4, dl_dy, pass.a3),
        }
    }

    /// The logarithm of one more than a number.
    pub open spec fn log_of(self, x: Scalar) -> Scalar {
        self.logarithm(self.sum(Scalar::one(), x))
    }

    /// The squared errors of the first `k` outputs, on a logarithmic scale, added up.
    pub open spec fn squared_errors(self, pred: Seq<Scalar>, target: Seq<Scalar>, k: nat) -> Scalar
        decreases k,
    {
        if k == 0 {
            Scalar::zero()
        } else {
            let err = self.difference(
                self.log_of(pred[k - 1].max(Scalar::zero())),
                self.log_of(target[k - 1]),
            );
            self.sum(self.squared_errors(pred, target, (k - 1) as nat), self.product(err, err))
        }
    }

    /// The mean squared error on a logarithmic scale.
    pub open spec fn loss(self, pred: Seq<Scalar>, target: Seq<Scalar>) -> Scalar {
        self.quotient(self.squared_errors(pred, target, OUTPUT_DIM as nat), self.of_count(OUTPUT_DIM))
    }

    /// How the loss changes with an output. Where the output is not positive, the
    /// slope of a positive one is taken, so that learning does not stop.
    pub open spec fn loss_slope(self, pred: Scalar, target: Scalar) -> Scalar {
        if Scalar::zero().lt(pred) {
            self.quotient(
                self.difference(self.log_of(pred), self.log_of(target)),
                self.sum(Scalar::one(), pred),
            )
        } else {
            self.log_of(target).negated()
        }
    }

    /// How the loss changes with each output.
    pub open spec fn loss_slopes(self, pred: Seq<Scalar>, target: Seq<Scalar>) -> Seq<Scalar> {
        Seq::new(OUTPUT_DIM as nat, |i: int| self.loss_slope(pred[i], target[i]))
    }
}

/// A list of zeros.
fn make_zeros(n: usize) -> (r: Vec<Scalar>)
    ensures
        r@ == zeros(n as nat),
{
    let mut v: Vec<Scalar> = Vec::new();
    let mut i: usize = 0;
    while i < n
        invariant
            i <= n,
            v.len() == i,
            forall|j: int| 0 <= j < i ==> v@[j] == Scalar::zero(),
        decreases n - i,
    {
        v.push(Scalar::zero());
        i = i + 1;
    }
    assert(v@ =~= zeros(n as nat));
    v
}

/// Adds a list to another.
pub fn add_list<M: Arith>(math: &M, a: &mut Vec<Scalar>, b: &Vec<Scalar>)
    requires
        old(a).len() == b.len(),
    ensures
        final(a).len() == old(a).len(),
        forall|rules: ArithRules| #[trigger] rules.describe(*math) ==> final(a)@ == rules.added(old(a)@, b@),
{
    let ghost before = a@;
    let n: usize = a.len();
    let mut i: usize = 0;
    while i < n
        invariant
            i <= n,
            n == a.len(),
            n == before.len(),
            n == b.len(),
            forall|j: int| i <= j < n ==> a@[j] == before[j],
            forall|rules: ArithRules, j: int|
                #![trigger rules.describe(*math), a@[j]]
                rules.describe(*math) && 0 <= j < i ==> a@[j] == rules.added(before, b@)[j],
        decreases n - i,
    {
        let x = math.sum(a[i], b[i]);
        a[i] = x;
        i = i + 1;
    }
    proof {
        assert forall|rules: ArithRules| #[trigger] rules.describe(*math) implies a@ == rules.added(before, b@) by {
            assert(a@ =~= rules.added(before, b@));
        }
    }
}

/// Divides a list.
pub fn divide_list<M: Arith>(math: &M, a: &mut Vec<Scalar>, k: Scalar)
    ensures
        final(a).len() == old(a).len(),
        forall|rules: ArithRules| #[trigger] rules.describe(*math) ==> final(a)@ == rules.divided(old(a)@, k),
{
    let ghost before = a@;
    let n: usize = a.len();
    let mut i: usize = 0;
    while i < n
        invariant
            i <= n,
            n == a.len(),
            n == before.len(),
            forall|j: int| i <= j < n ==> a@[j] == before[j],
            forall|rules: ArithRules, j: int|
                #![trigger rules.describe(*math), a@[j]]
                rules.describe(*math) && 0 <= j < i ==> a@[j] == rules.divided(before, k)[j],
        decreases n - i,
    {
        let x = math.quotient(a[i], k);
        a[i] = x;
        i = i + 1;
    }
    proof {
        assert forall|rules: ArithRules| #[trigger] rules.describe(*math) implies a@ == rules.divided(before, k) by {
            assert(a@ =~= rules.divided(before, k));
        }
    }
}

/// Moves a list toward another by a share.
pub fn smooth_list<M: Arith>(math: &M, a: &mut Vec<Scalar>, b: &Vec<Scalar>, alpha: Scalar)
    requires
        old(a).len() == b.len(),
    ensures
        final(a).len() == old(a).len(),
        forall|rules: ArithRules| #[trigger] rules.describe(*math) ==> final(a)@ == rules.smoothed(old(a)@, b@, alpha),
{
    let ghost before = a@;
    let n: usize = a.len();
    let beta = math.difference(Scalar::one(), alpha);
    let mut i: usize = 0;
    while i < n
        invariant
            i <= n,
            n == a.len(),
            n == before.len(),
            n == b.len(),
            forall|j: int| i <= j < n ==> a@[j] == before[j],
            forall|rules: ArithRules, j: int|
                #![trigger rules.describe(*math), a@[j]]
                rules.describe(*math) && 0 <= j < i ==> a@[j] == rules.smoothed(before, b@, alpha)[j],
            forall|rules: ArithRules| #[trigger]
                rules.describe(*math) ==> beta == rules.difference(Scalar::one(), alpha),
        decreases n - i,
    {
        let x = math.sum(math.product(a[i], beta), math.product(b[i], alpha));
        a[i] = x;
        i = i + 1;
    }
    proof {
        assert forall|rules: ArithRules| #[trigger] rules.describe(*math) implies a@ == rules.smoothed(before, b@, alpha) by {
            assert(a@ =~= rules.smoothed(before, b@, alpha));
        }
    }
}

impl Layer {
    /// A layer of zeros.
    pub(crate) fn zeros(rows: usize, cols: usize) -> (r: Layer)
        requires
            rows * cols <= usize::MAX,
        ensures
            r@ == zero_layer(rows as nat, cols as nat),
    {
        Layer { rows, cols, w: make_zeros(rows * cols), b: make_zeros(rows) }
    }

    /// A layer with random weights, drawn in order, and no biases.
    fn random<M: Arith>(math: &M, rows: usize, cols: usize, rng: &mut Pcg32) -> (r: Layer)
        requires
            rows * cols <= usize::MAX,
            rows + cols <= usize::MAX,
        ensures
            final(rng)@ == drawn(old(rng)@, (rows * cols) as nat),
            r@.is_shape(rows as int, cols as int),
            forall|rules: ArithRules| #[trigger]
                rules.describe(*math) ==> r@ == rules.first_layer(old(rng)@, rows as nat, cols as nat),
    {
        let limit = math.root(math.quotient(Scalar { key: SIX_KEY }, math.of_count(rows + cols)));
        let n: usize = rows * cols;
        let ghost start = rng@;
        let mut w: Vec<Scalar> = Vec::new();
        let mut i: usize = 0;
        while i < n
            invariant
                i <= n,
                w.len() == i,
                rng@ == drawn(start, i as nat),
                forall|rules: ArithRules, j: int|
                    #![trigger rules.describe(*math), w@[j]]
                    rules.describe(*math) && 0 <= j < i ==> w@[j] == rules.spread(
                        drawn(start, j as nat).value(),
                        limit,
                    ),
            decreases n - i,
        {
            let u = rng.next_f32();
            let x = math.product(math.difference(math.product(u, Scalar { key: TWO_KEY }), Scalar::one()), limit);
            w.push(x);
            i = i + 1;
        }
        let b = make_zeros(rows);
        proof {
            assert forall|rules: ArithRules| #[trigger] rules.describe(*math) implies w@ == rules.random_weights(
                start,
                n as nat,
                rules.weight_limit((rows + cols) as usize),
            ) by {
                assert(w@ =~= rules.random_weights(start, n as nat, rules.weight_limit((rows + cols) as usize)));
            }
        }
        Layer { rows, cols, w, b }
    }

    /// Adds the gradient of one sample.
    fn accumulate<M: Arith>(&mut self, math: &M, delta: &Vec<Scalar>, a: &Vec<Scalar>)
        requires
            old(self)@.is_shape(old(self).rows as int, old(self).cols as int),
            delta.len() == old(self).rows,
            a.len() == old(self).cols,
        ensures
            final(self)@.is_shape(old(self).rows as int, old(self).cols as int),
            forall|rules: ArithRules| #[trigger]
                rules.describe(*math) ==> final(self)@ == rules.layer_backward(old(self)@, delta@, a@),
    {
        let rows: usize = self.rows;
        let cols: usize = self.cols;
        let n: usize = self.w.len();
        let ghost before = self.w@;
        let ghost full = self@;
        let mut k: usize = 0;
        while k < n
            invariant
                k <= n,
                n == self.w.len(),
                n == before.len(),
                n == rows * cols,
                rows == self.rows,
                cols == self.cols,
                self.b@ == full.b,
                delta.len() == rows,
                a.len() == cols,
                forall|j: int| k <= j < n ==> self.w@[j] == before[j],
                forall|rules: ArithRules, j: int|
                    #![trigger rules.describe(*math), self.w@[j]]
                    rules.describe(*math) && 0 <= j < k ==> self.w@[j] == rules.outer_added(
                        before,
                        rows as int,
                        delta@,
                        a@,
                    )[j],
            decreases n - k,
        {
            proof {
                assert(rows > 0) by (nonlinear_arith)
                    requires
                        k < rows * cols,
                ;
                assert(k / rows < cols) by (nonlinear_arith)
                    requires
                        k < rows * cols,
                        rows > 0,
                ;
            }
            let x = math.sum(math.product(a[k / rows], delta[k % rows]), self.w[k]);
            self.w[k] = x;
            k = k + 1;
        }
        proof {
            assert forall|rules: ArithRules| #[trigger] rules.describe(*math) implies self.w@ == rules.outer_added(
                before,
                rows as int,
                delta@,
                a@,
            ) by {
                assert(self.w@ =~= rules.outer_added(before, rows as int, delta@, a@));
            }
        }
        add_list(math, &mut self.b, delta);
    }

    /// The errors before this layer.
    fn pull<M: Arith>(&self, math: &M, delta: &Vec<Scalar>, z: &Vec<Scalar>) -> (r: Vec<Scalar>)
        requires
            self@.is_shape(self.rows as int, self.cols as int),
            delta.len() == self.rows,
            z.len() == self.cols,
        ensures
            r.len() == self.cols,
            forall|rules: ArithRules| #[trigger] rules.describe(*math) ==> r@ == rules.pulled(self@, delta@, z@),
    {
        let mut out: Vec<Scalar> = Vec::new();
        let mut j: usize = 0;
        while j < self.cols
            invariant
                j <= self.cols,
                out.len() == j,
                self@.is_shape(self.rows as int, self.cols as int),
                delta.len() == self.rows,
                z.len() == self.cols,
                forall|rules: ArithRules, n: int|
                    #![trigger rules.describe(*math), out@[n]]
                    rules.describe(*math) && 0 <= n < j ==> out@[n] == rules.product(
                        rules.inner(self@.column(n), delta@),
                        rules.silu_deriv(z@[n]),
                    ),
            decreases self.cols - j,
        {
            let column = self.get_column(j);
            let x = math.product(math.inner(&column, delta), silu_deriv(math, z[j]));
            out.push(x);
            j = j + 1;
        }
        proof {
            assert forall|rules: ArithRules| #[trigger] rules.describe(*math) implies out@ == rules.pulled(
                self@,
                delta@,
                z@,
            ) by {
                assert(out@ =~= rules.pulled(self@, delta@, z@));
            }
        }
        out
    }

    /// The weights of an input.
    fn get_column(&self, j: usize) -> (r: Vec<Scalar>)
        requires
            self@.is_shape(self.rows as int, self.cols as int),
            j < self.cols,
        ensures
            r@ == self@.column(j as int),
    {
        let mut out: Vec<Scalar> = Vec::new();
        let mut i: usize = 0;
        while i < self.rows
            invariant
                i <= self.rows,
                j < self.cols,
                out.len() == i,
                self@.is_shape(self.rows as int, self.cols as int),
                forall|n: int| 0 <= n < i ==> #[trigger] out@[n] == self@.weight(n, j as int),
            decreases self.rows - i,
        {
            assert(j * self.rows + i < self.rows * self.cols) by (nonlinear_arith)
                requires
                    i < self.rows,
                    j < self.cols,
            ;
            assert(0 <= j * self.rows) by (nonlinear_arith);
            assert(self.w.len() == self.rows * self.cols);
            out.push(self.w[j * self.rows + i]);
            i = i + 1;
        }
        assert(out@ =~= self@.column(j as int));
        out
    }

    /// A layer with the same weights and biases.
    fn copied(&self) -> (r: Layer)
        ensures
            r@ == self@,
    {
        let w = copy_list(&self.w);
        let b = copy_list(&self.b);
        Layer { rows: self.rows, cols: self.cols, w, b }
    }
}

/// A list with the same numbers.
fn copy_list(a: &Vec<Scalar>) -> (r: Vec<Scalar>)
    ensures
        r@ == a@,
{
    let mut out: Vec<Scalar> = Vec::new();
    let mut i: usize = 0;
    while i < a.len()
        invariant
            i <= a.len(),
            out.len() == i,
            forall|j: int| 0 <= j < i ==> #[trigger] out@[j] == a@[j],
        decreases a.len() - i,
    {
        out.push(a[i]);
        i = i + 1;
    }
    assert(out@ =~= a@);
    out
}

/// The derivative of the activation.
pub(crate) fn silu_deriv<M: Arith>(math: &M, x: Scalar) -> (r: Scalar)
    ensures
        forall|rules: ArithRules| #[trigger] rules.describe(*math) ==> r == rules.silu_deriv(x),
{
    let sig = math.quotient(Scalar::one(), math.sum(Scalar::one(), math.exponential(x.negated())));
    let f = math.product(x, sig);
    math.sum(f, math.product(sig, math.difference(Scalar::one(), f)))
}

impl NircMlpGradients {
    /// A gradient of zeros.
    pub fn zeros() -> (r: NircMlpGradients)
        ensures
            r@ == zero_net(),
            r@.valid(),
    {
        NircMlpGradients {
            l1: Layer::zeros(HIDDEN_DIM, INPUT_DIM),
            l2: Layer::zeros(HIDDEN_DIM, HIDDEN_DIM),
            l3: Layer::zeros(HIDDEN_DIM, HIDDEN_DIM),
            l4: Layer::zeros(OUTPUT_DIM, HIDDEN_DIM),
        }
    }

    /// A gradient of zeros on the heap.
    pub fn new_boxed() -> (r: Box<NircMlpGradients>)
        ensures
            r@ == zero_net(),
            r@.valid(),
    {
        Box::new(NircMlpGradients::zeros())
    }

    /// Sets every value to zero.
    pub fn zero_in_place(&mut self)
        ensures
            final(self)@ == zero_net(),
            final(self)@.valid(),
    {
        *self = NircMlpGradients::zeros();
    }

    /// Adds another gradient.
    pub fn add_gradients<M: Arith>(&mut self, math: &M, other: &NircMlpGradients)
        requires
            old(self)@.valid(),
            other@.valid(),
        ensures
            final(self)@.valid(),
            forall|rules: ArithRules| #[trigger]
                rules.describe(*math) ==> final(self)@ == rules.net_added(old(self)@, other@),
    {
        add_list(math, &mut self.l1.w, &other.l1.w);
        add_list(math, &mut self.l1.b, &other.l1.b);
        add_list(math, &mut self.l2.w, &other.l2.w);
        add_list(math, &mut self.l2.b, &other.l2.b);
        add_list(math, &mut self.l3.w, &other.l3.w);
        add_list(math, &mut self.l3.b, &other.l3.b);
        add_list(math, &mut self.l4.w, &other.l4.w);
        add_list(math, &mut self.l4.b, &other.l4.b);
    }

    /// Divides every value.
    pub fn divide_by<M: Arith>(&mut self, math: &M, n: Scalar)
        requires
            old(self)@.valid(),
        ensures
            final(self)@.valid(),
            forall|rules: ArithRules| #[trigger]
                rules.describe(*math) ==> final(self)@ == rules.net_divided(old(self)@, n),
    {
        divide_list(math, &mut self.l1.w, n);
        divide_list(math, &mut self.l1.b, n);
        divide_list(math, &mut self.l2.w, n);
        divide_list(math, &mut self.l2.b, n);
        divide_list(math, &mut self.l3.w, n);
        divide_list(math, &mut self.l3.b, n);
        divide_list(math, &mut self.l4.w, n);
        divide_list(math, &mut self.l4.b, n);
    }
}

impl NircMlp {
    /// A network on the heap with random weights, always the same.
    pub fn new_boxed<M: Arith>(math: &M) -> (r: Box<NircMlp>)
        ensures
            r@.valid(),
            forall|rules: ArithRules| #[trigger] rules.describe(*math) ==> r@ == rules.first_net(),
    {
        let mut rng = Pcg32::from_seed_128(INIT_SEED);
        let l1 = Layer::random(math, HIDDEN_DIM, INPUT_DIM, &mut rng);
        let l2 = Layer::random(math, HIDDEN_DIM, HIDDEN_DIM, &mut rng);
        let l3 = Layer::random(math, HIDDEN_DIM, HIDDEN_DIM, &mut rng);
        let l4 = Layer::random(math, OUTPUT_DIM, HIDDEN_DIM, &mut rng);
        Box::new(NircMlp { l1, l2, l3, l4 })
    }

    /// A copy on the heap.
    pub fn clone_boxed(&self) -> (r: Box<NircMlp>)
        ensures
            r@ == self@,
    {
        Box::new(
            NircMlp { l1: self.l1.copied(), l2: self.l2.copied(), l3: self.l3.copied(), l4: self.l4.copied() },
        )
    }

    /// Exponential moving average: moves every weight toward that of another
    /// network by a share.
    pub fn ema<M: Arith>(&mut self, math: &M, other: &NircMlp, alpha: Scalar)
        requires
            old(self)@.valid(),
            other@.valid(),
        ensures
            final(self)@.valid(),
            forall|rules: ArithRules| #[trigger]
                rules.describe(*math) ==> final(self)@ == rules.net_smoothed(old(self)@, other@, alpha),
    {
        smooth_list(math, &mut self.l1.w, &other.l1.w, alpha);
        smooth_list(math, &mut self.l1.b, &other.l1.b, alpha);
        smooth_list(math, &mut self.l2.w, &other.l2.w, alpha);
        smooth_list(math, &mut self.l2.b, &other.l2.b, alpha);
        smooth_list(math, &mut self.l3.w, &other.l3.w, alpha);
        smooth_list(math, &mut self.l3.b, &other.l3.b, alpha);
        smooth_list(math, &mut self.l4.w, &other.l4.w, alpha);
        smooth_list(math, &mut self.l4.b, &other.l4.b, alpha);
    }

    /// Training forward pass: keeps intermediate values for the backward pass.
    pub fn forward_for_training<M: Arith>(&self, math: &M, x: Vec<Scalar>) -> (r: (Vec<Scalar>, NircForwardCache))
        requires
            self@.valid(),
            x.len() == INPUT_DIM,
        ensures
            r.0.len() == OUTPUT_DIM,
            r.1@.valid(),
            forall|rules: ArithRules| #[trigger]
                rules.describe(*math) ==> r.0@ == rules.forward(self@, x@) && r.1@ == rules.pass(self@, x@),
    {
        let z1 = self.l1.apply(math, &x);
        let a1 = activate(math, &z1);
        let z2 = self.l2.apply(math, &a1);
        let a2 = activate(math, &z2);
        let z3 = self.l3.apply(math, &a2);
        let a3 = activate(math, &z3);
        let out = self.l4.apply(math, &a3);
        (out, NircForwardCache { x, z1, a1, z2, a2, z3, a3 })
    }

    /// Adds the gradient of one sample.
    pub fn backward_into<M: Arith>(
        &self,
        math: &M,
        cache: &NircForwardCache,
        dl_dy: &Vec<Scalar>,
        grads: &mut NircMlpGradients,
    )
        requires
            self@.valid(),
            cache@.valid(),
            dl_dy.len() == OUTPUT_DIM,
            old(grads)@.valid(),
        ensures
            final(grads)@.valid(),
            forall|rules: ArithRules| #[trigger]
                rules.describe(*math) ==> final(grads)@ == rules.backward(self@, cache@, dl_dy@, old(grads)@),
    {
        grads.l4.accumulate(math, dl_dy, &cache.a3);
        let delta3 = self.l4.pull(math, dl_dy, &cache.z3);
        grads.l3.accumulate(math, &delta3, &cache.a2);
        let delta2 = self.l3.pull(math, &delta3, &cache.z2);
        grads.l2.accumulate(math, &delta2, &cache.a1);
        let delta1 = self.l2.pull(math, &delta2, &cache.z1);
        grads.l1.accumulate(math, &delta1, &cache.x);
    }

    /// Mean squared error on a logarithmic scale: bright and dark count alike.
    pub fn compute_loss<M: Arith>(math: &M, pred: &Vec<Scalar>, target: &[Scalar; 3]) -> (r: Scalar)
        requires
            pred.len() == OUTPUT_DIM,
        ensures
            forall|rules: ArithRules| #[trigger] rules.describe(*math) ==> r == rules.loss(pred@, target@),
    {
        let mut loss = Scalar::zero();
        let mut i: usize = 0;
        while i < OUTPUT_DIM
            invariant
                i <= OUTPUT_DIM,
                pred.len() == OUTPUT_DIM,
                forall|rules: ArithRules| #[trigger]
                    rules.describe(*math) ==> loss == rules.squared_errors(pred@, target@, i as nat),
            decreases OUTPUT_DIM - i,
        {
            let p = math.logarithm(math.sum(Scalar::one(), pred[i].max(Scalar::zero())));
            let t = math.logarithm(math.sum(Scalar::one(), target[i]));
            let err = math.difference(p, t);
            loss = math.sum(loss, math.product(err, err));
            i = i + 1;
        }
        math.quotient(loss, math.of_count(OUTPUT_DIM))
    }

    /// How the loss changes with each output.
    pub fn compute_loss_derivative<M: Arith>(math: &M, pred: &Vec<Scalar>, target: &[Scalar; 3]) -> (r: Vec<Scalar>)
        requires
            pred.len() == OUTPUT_DIM,
        ensures
            r.len() == OUTPUT_DIM,
            forall|rules: ArithRules| #[trigger] rules.describe(*math) ==> r@ == rules.loss_slopes(pred@, target@),
    {
        let mut out: Vec<Scalar> = Vec::new();
        let mut i: usize = 0;
        while i < OUTPUT_DIM
            invariant
                i <= OUTPUT_DIM,
                out.len() == i,
                pred.len() == OUTPUT_DIM,
                forall|rules: ArithRules, n: int|
                    #![trigger rules.describe(*math), out@[n]]
                    rules.describe(*math) && 0 <= n < i ==> out@[n] == rules.loss_slope(pred@[n], target@[n]),
            decreases OUTPUT_DIM - i,
        {
            let target_log = math.logarithm(math.sum(Scalar::one(), target[i]));
            let slope = if Scalar::zero().lt(pred[i]) {
                let pred_log = math.logarithm(math.sum(Scalar::one(), pred[i]));
                math.quotient(math.difference(pred_log, target_log), math.sum(Scalar::one(), pred[i]))
            } else {
                target_log.negated()
            };
            out.push(slope);
            i = i + 1;
        }
        proof {
            assert forall|rules: ArithRules| #[trigger] rules.describe(*math) implies out@ == rules.loss_slopes(
                pred@,
                target@,
            ) by {
                assert(out@ =~= rules.loss_slopes(pred@, target@));
            }
        }
        out
    }
}

/// A pass that is made for training gives what inference gives.
pub proof fn law_training_pass_infers(rules: ArithRules, net: Net, x: Seq<Scalar>)
    ensures
        rules.layer_out(net.l4, rules.pass(net, x).a3) == rules.forward(net, x),
{
}

/// What is asked of an arithmetic for errors to be measured: logarithms of
/// numbers from one on are finite, a difference is squared alike from both sides
/// and is nothing between equals, and what is made of parts that are not negative
/// is not negative. Rounding to the nearest number does all this.
pub open spec fn measures_errors(rules: ArithRules) -> bool {
    &&& forall|x: Scalar| x.is_finite() && Scalar::zero().le(x) ==> (#[trigger] rules.log_of(x)).is_finite()
    &&& forall|a: Scalar, b: Scalar|
        #![trigger rules.difference(a, b)]
        a.is_finite() && b.is_finite() ==> {
            let d = rules.difference(a, b);
            let e = rules.difference(b, a);
            rules.product(d, d) == rules.product(e, e) && Scalar::zero().le(rules.product(d, d))
        }
    &&& forall|a: Scalar| a.is_finite() ==> #[trigger] rules.difference(a, a) == Scalar::zero()
    &&& rules.product(Scalar::zero(), Scalar::zero()) == Scalar::zero()
    &&& rules.sum(Scalar::zero(), Scalar::zero()) == Scalar::zero()
    &&& rules.quotient(Scalar::zero(), rules.of_count(OUTPUT_DIM)) == Scalar::zero()
    &&& forall|a: Scalar, b: Scalar|
        Scalar::zero().le(a) && Scalar::zero().le(b) ==> Scalar::zero().le(#[trigger] rules.sum(a, b))
    &&& forall|a: Scalar|
        Scalar::zero().le(a) ==> Scalar::zero().le(#[trigger] rules.quotient(a, rules.of_count(OUTPUT_DIM)))
}

/// Whether values are finite and not negative.
pub open spec fn are_amounts(v: Seq<Scalar>) -> bool {
    &&& v.len() == OUTPUT_DIM
    &&& forall|i: int| 0 <= i < v.len() ==> (#[trigger] v[i]).is_finite() && Scalar::zero().le(v[i])
}

proof fn lemma_squared_errors(rules: ArithRules, a: Seq<Scalar>, b: Seq<Scalar>, k: nat)
    requires
        measures_errors(rules),
        are_amounts(a),
        are_amounts(b),
        k <= OUTPUT_DIM,
    ensures
        rules.squared_errors(a, b, k) == rules.squared_errors(b, a, k),
        Scalar::zero().le(rules.squared_errors(a, b, k)),
        rules.squared_errors(a, a, k) == Scalar::zero(),
    decreases k,
{
    if k > 0 {
        lemma_squared_errors(rules, a, b, (k - 1) as nat);
        let x = a[k - 1];
        let y = b[k - 1];
        assert(x.max(Scalar::zero()) == x);
        assert(y.max(Scalar::zero()) == y);
        assert(rules.log_of(x).is_finite() && rules.log_of(y).is_finite());
        let d = rules.difference(rules.log_of(x), rules.log_of(y));
        assert(rules.difference(rules.log_of(x), rules.log_of(x)) == Scalar::zero());
    }
}

/// The loss is the same from both sides.
pub proof fn law_loss_is_symmetric(rules: ArithRules, a: Seq<Scalar>, b: Seq<Scalar>)
    requires
        measures_errors(rules),
        are_amounts(a),
        are_amounts(b),
    ensures
        rules.loss(a, b) == rules.loss(b, a),
{
    lemma_squared_errors(rules, a, b, OUTPUT_DIM as nat);
}

/// The loss is never negative.
pub proof fn law_loss_is_not_negative(rules: ArithRules, a: Seq<Scalar>, b: Seq<Scalar>)
    requires
        measures_errors(rules),
        are_amounts(a),
        are_amounts(b),
    ensures
        Scalar::zero().le(rules.loss(a, b)),
{
    lemma_squared_errors(rules, a, b, OUTPUT_DIM as nat);
}

/// The loss is nothing where the target is met.
pub proof fn law_loss_is_zero_at_the_target(rules: ArithRules, a: Seq<Scalar>)
    requires
        measures_errors(rules),
        are_amounts(a),
    ensures
        rules.loss(a, a) == Scalar::zero(),
{
    lemma_squared_errors(rules, a, a, OUTPUT_DIM as nat);
}

/// Whether a layer's weights and biases are finite.
pub open spec fn is_finite_layer(l: LayerView) -> bool {
    &&& forall|i: int, j: int| 0 <= i < l.rows && 0 <= j < l.cols ==> (#[trigger] l.weight(i, j)).is_finite()
    &&& forall|i: int| 0 <= i < l.b.len() ==> (#[trigger] l.b[i]).is_finite()
}

/// The input that is one at a place and nothing elsewhere.
pub open spec fn one_at(n: nat, j: int) -> Seq<Scalar> {
    Seq::new(
        n,
        |k: int|
            if k == j {
                Scalar::one()
            } else {
                Scalar::zero()
            },
    )
}

proof fn lemma_weighted_one(rules: ArithRules, l: LayerView, i: int, j: int, k: nat)
    requires
        rules.keeps_ones(),
        rules.keeps_zeros(),
        is_finite_layer(l),
        0 <= i < l.rows,
        l.rows == l.b.len(),
        k <= l.cols,
        0 <= j ==> rules.sum(l.weight(i, j), l.b[i]).ordered(),
    ensures
        rules.weighted(l, one_at(l.cols, j), i, k) == (if 0 <= j < k {
            rules.sum(l.weight(i, j), l.b[i])
        } else {
            l.b[i]
        }),
    decreases k,
{
    if k > 0 {
        lemma_weighted_one(rules, l, i, j, (k - 1) as nat);
        let x = one_at(l.cols, j);
        if k - 1 == j {
            assert(x[k - 1] == Scalar::one());
            assert(rules.product(l.weight(i, k - 1), Scalar::one()) == l.weight(i, k - 1));
        } else {
            assert(x[k - 1] == Scalar::zero());
            assert(rules.product(l.weight(i, k - 1), Scalar::zero()) == Scalar::zero());
        }
    }
}

/// A layer reads its weights: fed nothing it puts out its biases, and fed one at one
/// input the weights from that input, added to them.
pub proof fn law_layer_reads_its_weights(rules: ArithRules, l: LayerView, i: int, j: int)
    requires
        rules.keeps_ones(),
        rules.keeps_zeros(),
        is_finite_layer(l),
        0 <= i < l.rows,
        0 <= j < l.cols,
        l.rows == l.b.len(),
        rules.sum(l.weight(i, j), l.b[i]).ordered(),
    ensures
        rules.layer_out(l, zeros(l.cols))[i] == l.b[i],
        rules.layer_out(l, one_at(l.cols, j))[i] == rules.sum(l.w[j * l.rows + i], l.b[i]),
{
    lemma_weighted_one(rules, l, i, j, l.cols);
    lemma_weighted_one(rules, l, i, -1, l.cols);
    assert(one_at(l.cols, -1) =~= zeros(l.cols));
}

/// The activation is a number times its logistic: nothing at nothing, and times one
/// and the exponential of its negative it is the number again.
pub proof fn law_activation_is_logistic(rules: ArithRules, x: Scalar)
    requires
        rules.keeps_zeros(),
        ({
            let d = rules.sum(Scalar::one(), rules.exponential(x.negated()));
            rules.product(rules.quotient(x, d), d) == x
        }),
        rules.sum(Scalar::one(), rules.exponential(Scalar::zero())).ordered(),
        !rules.sum(Scalar::one(), rules.exponential(Scalar::zero())).is_zero(),
    ensures
        rules.silu(Scalar::zero()) == Scalar::zero(),
        rules.product(rules.silu(x), rules.sum(Scalar::one(), rules.exponential(x.negated()))) == x,
{
}

/// The slope of the activation is made of the activation and the logistic: less the
/// activation it is the logistic times what the activation leaves of one; and half at
/// nothing, wherever one over two is.
pub proof fn law_slope_of_the_activation(rules: ArithRules, x: Scalar, half: Scalar)
    requires
        rules.keeps_ones(),
        rules.keeps_zeros(),
        half.is_finite(),
        rules.quotient(Scalar::one(), rules.sum(Scalar::one(), rules.exponential(Scalar::zero()))) == half,
        ({
            let d = rules.sum(Scalar::one(), rules.exponential(x.negated()));
            let logistic = rules.quotient(Scalar::one(), d);
            let f = rules.product(x, logistic);
            let rest = rules.product(logistic, rules.difference(Scalar::one(), f));
            &&& rules.product(logistic, d) == Scalar::one()
            &&& rules.difference(rules.sum(f, rest), f) == rest
        }),
    ensures
        rules.silu_deriv(Scalar::zero()) == half,
        ({
            let d = rules.sum(Scalar::one(), rules.exponential(x.negated()));
            exists|logistic: Scalar|
                rules.product(logistic, d) == Scalar::one() && rules.difference(
                    rules.silu_deriv(x),
                    rules.product(x, logistic),
                ) == #[trigger] rules.product(
                    logistic,
                    rules.difference(Scalar::one(), rules.product(x, logistic)),
                )
        }),
{
    let d = rules.sum(Scalar::one(), rules.exponential(x.negated()));
    let logistic = rules.quotient(Scalar::one(), d);
    let f = rules.product(x, logistic);
    assert(rules.silu_deriv(x) == rules.sum(f, rules.product(logistic, rules.difference(Scalar::one(), f))));
    assert(Scalar::zero().negated() == Scalar::zero());
    assert(rules.product(Scalar::zero(), half) == Scalar::zero());
    assert(rules.difference(Scalar::one(), Scalar::zero()) == Scalar::one());
    assert(rules.product(half, Scalar::one()) == half);
}

/// A network is its layers in turn, with an activation between them: what comes out
/// is what the last layer makes of the activated outputs of the third, and so on.
pub proof fn law_layers_follow_each_other(rules: ArithRules, net: Net, x: Seq<Scalar>, i: int)
    requires
        0 <= i < net.l4.rows,
    ensures
        ({
            let hidden = |l: LayerView, x: Seq<Scalar>| Seq::new(l.rows, |k: int| rules.silu(rules.layer_out(l, x)[k]));
            rules.forward(net, x)[i] == rules.weighted(
                net.l4,
                hidden(net.l3, hidden(net.l2, hidden(net.l1, x))),
                i,
                net.l4.cols,
            )
        }),
        rules.forward(net, x).len() == net.l4.rows,
{
    let hidden = |l: LayerView, x: Seq<Scalar>| Seq::new(l.rows, |k: int| rules.silu(rules.layer_out(l, x)[k]));
    let a1 = rules.activated(rules.layer_out(net.l1, x));
    assert(a1 =~= hidden(net.l1, x));
    let a2 = rules.activated(rules.layer_out(net.l2, a1));
    assert(a2 =~= hidden(net.l2, a1));
    let a3 = rules.activated(rules.layer_out(net.l3, a2));
    assert(a3 =~= hidden(net.l3, a2));
}

/// An output that is too great is pulled down and one that is too small up, and one
/// that is right is left alone; one that is not positive is pulled up by the whole
/// target.
pub proof fn law_slope_points_away_from_the_target(rules: ArithRules, pred: Scalar, target: Scalar)
    requires
        rules.keeps_zeros(),
        rules.keeps_selves(),
        rules.orders_sums(),
        rules.orders_products(),
        pred.is_finite(),
        target.is_finite() && Scalar::zero().le(target),
        rules.log_of(pred).is_finite(),
        rules.log_of(target).is_finite() && Scalar::zero().le(rules.log_of(target)),
        pred.le(target) ==> rules.log_of(pred).le(rules.log_of(target)),
        target.le(pred) ==> rules.log_of(target).le(rules.log_of(pred)),
        rules.difference(rules.log_of(pred), rules.log_of(target)).is_finite(),
        Scalar::zero().lt(pred) ==> rules.sum(Scalar::one(), pred).is_finite() && Scalar::zero().lt(
            rules.sum(Scalar::one(), pred),
        ),
    ensures
        Scalar::zero().lt(pred) && target.le(pred) ==> Scalar::zero().le(rules.loss_slope(pred, target)),
        Scalar::zero().lt(pred) && pred.le(target) ==> rules.loss_slope(pred, target).le(Scalar::zero()),
        Scalar::zero().lt(pred) && pred == target ==> rules.loss_slope(pred, target) == Scalar::zero(),
        pred.le(Scalar::zero()) ==> rules.loss_slope(pred, target).le(Scalar::zero()),
        pred.le(Scalar::zero()) ==> rules.loss_slope(pred, target).negated() == rules.log_of(target),
{
    let (p, t) = (rules.log_of(pred), rules.log_of(target));
    assert(rules.difference(t, t) == Scalar::zero());
    let d = rules.sum(Scalar::one(), pred);
    if Scalar::zero().lt(pred) {
        assert(rules.quotient(Scalar::zero(), d) == Scalar::zero());
        if target.le(pred) {
            assert(rules.difference(t, t).le(rules.difference(p, t)));
            assert(rules.quotient(Scalar::zero(), d).le(rules.quotient(rules.difference(p, t), d)));
        }
        if pred.le(target) {
            assert(rules.difference(p, t).le(rules.difference(t, t)));
            assert(rules.quotient(rules.difference(p, t), d).le(rules.quotient(Scalar::zero(), d)));
        }
    }
}

/// The slope of the loss, times one and the output, is the error on a logarithmic
/// scale, wherever dividing can be undone.
pub proof fn law_slope_is_the_error_in_scale(rules: ArithRules, pred: Scalar, target: Scalar)
    requires
        Scalar::zero().lt(pred),
        ({
            let error = rules.difference(
                rules.logarithm(rules.sum(Scalar::one(), pred)),
                rules.logarithm(rules.sum(Scalar::one(), target)),
            );
            let d = rules.sum(Scalar::one(), pred);
            rules.product(rules.quotient(error, d), d) == error
        }),
    ensures
        rules.product(rules.loss_slope(pred, target), rules.sum(Scalar::one(), pred)) == rules.difference(
            rules.logarithm(rules.sum(Scalar::one(), pred)),
            rules.logarithm(rules.sum(Scalar::one(), target)),
        ),
{
}

/// The loss is the mean over all outputs: times their number it is the sum of their
/// squared errors, each once, wherever dividing can be undone.
pub proof fn law_loss_counts_every_output(rules: ArithRules, pred: Seq<Scalar>, target: Seq<Scalar>)
    requires
        rules.keeps_zeros(),
        ({
            let e = |i: int|
                rules.difference(rules.log_of(pred[i].max(Scalar::zero())), rules.log_of(target[i]));
            let all = rules.sum(
                rules.sum(rules.product(e(0), e(0)), rules.product(e(1), e(1))),
                rules.product(e(2), e(2)),
            );
            &&& rules.product(e(0), e(0)).ordered()
            &&& rules.product(rules.quotient(all, rules.of_count(OUTPUT_DIM)), rules.of_count(OUTPUT_DIM)) == all
        }),
    ensures
        ({
            let e = |i: int|
                rules.difference(rules.log_of(pred[i].max(Scalar::zero())), rules.log_of(target[i]));
            rules.product(rules.loss(pred, target), rules.of_count(OUTPUT_DIM)) == rules.sum(
                rules.sum(rules.product(e(0), e(0)), rules.product(e(1), e(1))),
                rules.product(e(2), e(2)),
            )
        }),
{
    reveal_with_fuel(ArithRules::squared_errors, 4);
}

/// The gradient of a weight grows by what went in, times the error behind it, and
/// that of a bias by the error: for every weight of a layer its own.
pub proof fn law_weights_learn_from_their_input(
    rules: ArithRules,
    g: LayerView,
    delta: Seq<Scalar>,
    a: Seq<Scalar>,
    i: int,
    j: int,
)
    requires
        g.is_shape(g.rows as int, g.cols as int),
        0 <= i < g.rows,
        0 <= j < g.cols,
    ensures
        rules.layer_backward(g, delta, a).weight(i, j) == rules.sum(rules.product(a[j], delta[i]), g.weight(i, j)),
        rules.layer_backward(g, delta, a).b[i] == rules.sum(g.b[i], delta[i]),
        rules.layer_backward(g, delta, a).rows == g.rows,
        rules.layer_backward(g, delta, a).cols == g.cols,
{
    vstd::arithmetic::div_mod::lemma_fundamental_div_mod_converse(j * g.rows + i, g.rows as int, j, i);
    assert(0 <= j * g.rows + i < g.rows * g.cols) by (nonlinear_arith)
        requires
            0 <= i < g.rows,
            0 <= j < g.cols,
    ;
}

/// The error before a layer is the error behind it, seen through the weights from
/// each input, times the slope of what went into the activation there.
pub proof fn law_errors_are_pulled_through_weights(
    rules: ArithRules,
    l: LayerView,
    delta: Seq<Scalar>,
    z: Seq<Scalar>,
    j: int,
    slope: Scalar,
)
    requires
        0 <= j < l.cols,
        slope == rules.silu_deriv(z[j]),
    ensures
        rules.pulled(l, delta, z)[j] == rules.product(
            rules.inner(Seq::new(l.rows, |i: int| l.w[j * l.rows + i]), delta),
            slope,
        ),
        rules.pulled(l, delta, z).len() == l.cols,
{
    assert(l.column(j) =~= Seq::new(l.rows, |i: int| l.w[j * l.rows + i]));
}

/// Each layer learns from what went into it and from the error behind it: the last
/// from the slopes of the loss, each other from the error pulled through the layer
/// after it.
pub proof fn law_every_layer_learns(rules: ArithRules, net: Net, pass: Pass, dl_dy: Seq<Scalar>, grads: Net)
    ensures
        ({
            let r = rules.backward(net, pass, dl_dy, grads);
            let d3 = rules.pulled(net.l4, dl_dy, pass.z3);
            let d2 = rules.pulled(net.l3, d3, pass.z2);
            let d1 = rules.pulled(net.l2, d2, pass.z1);
            let learns = |g: LayerView, n: LayerView, delta: Seq<Scalar>, a: Seq<Scalar>|
                {
                    &&& n.b == Seq::new(g.b.len(), |i: int| rules.sum(g.b[i], delta[i]))
                    &&& n.w == Seq::new(
                        g.w.len(),
                        |k: int| rules.sum(rules.product(a[k / (g.rows as int)], delta[k % (g.rows as int)]), g.w[k]),
                    )
                };
            &&& learns(grads.l4, r.l4, dl_dy, pass.a3)
            &&& learns(grads.l3, r.l3, d3, pass.a2)
            &&& learns(grads.l2, r.l2, d2, pass.a1)
            &&& learns(grads.l1, r.l1, d1, pass.x)
        }),
{
}

/// Where the outputs are right nothing is learned: with slopes of nothing the gradient
/// of the last layer stays.
pub proof fn law_no_error_teaches_nothing(rules: ArithRules, g: LayerView, a: Seq<Scalar>, k: int)
    requires
        rules.keeps_zeros(),
        g.is_shape(g.rows as int, g.cols as int),
        g.rows > 0,
        0 <= k < g.w.len(),
        a.len() == g.cols,
        a[k / (g.rows as int)].is_finite(),
        g.w[k].is_finite(),
        forall|i: int| 0 <= i < g.b.len() ==> (#[trigger] g.b[i]).is_finite(),
    ensures
        rules.layer_backward(g, zeros(g.rows), a).w[k] == g.w[k],
        rules.layer_backward(g, zeros(g.rows), a).b =~= g.b,
{
    let m = k % (g.rows as int);
    assert(0 <= m < g.rows);
    assert(zeros(g.rows)[m] == Scalar::zero());
    assert forall|i: int| 0 <= i < g.b.len() implies rules.sum(#[trigger] g.b[i], Scalar::zero()) == g.b[i] by {}
}

/// The smoothed network moves toward the trained one by its share: not at all with a
/// share of nothing, all the way with a share of one.
pub proof fn law_smoothing_moves_by_its_share(rules: ArithRules, n: Net, o: Net, i: int)
    requires
        rules.keeps_ones(),
        rules.keeps_zeros(),
        rules.keeps_selves(),
        n.l1.w.len() == o.l1.w.len() && n.l4.b.len() == o.l4.b.len(),
        0 <= i < n.l1.w.len() ==> n.l1.w[i].is_finite() && o.l1.w[i].is_finite(),
        0 <= i < n.l4.b.len() ==> n.l4.b[i].is_finite() && o.l4.b[i].is_finite(),
    ensures
        0 <= i < n.l1.w.len() ==> rules.net_smoothed(n, o, Scalar::zero()).l1.w[i] == n.l1.w[i],
        0 <= i < n.l1.w.len() ==> rules.net_smoothed(n, o, Scalar::one()).l1.w[i] == o.l1.w[i],
        0 <= i < n.l4.b.len() ==> rules.net_smoothed(n, o, Scalar::zero()).l4.b[i] == n.l4.b[i],
        0 <= i < n.l4.b.len() ==> rules.net_smoothed(n, o, Scalar::one()).l4.b[i] == o.l4.b[i],
{
    assert(rules.difference(Scalar::one(), Scalar::zero()) == Scalar::one());
    assert(rules.difference(Scalar::one(), Scalar::one()) == Scalar::zero());
}

/// Smoothing, adding and dividing treat every parameter of every layer alike: for
/// each, the share of what was and the share of what is.
pub proof fn law_networks_are_combined_alike(rules: ArithRules, n: Net, o: Net, alpha: Scalar, k: Scalar)
    ensures
        ({
            let r = rules.net_smoothed(n, o, alpha);
            let beta = rules.difference(Scalar::one(), alpha);
            let mixes = |a: Seq<Scalar>, b: Seq<Scalar>, c: Seq<Scalar>|
                c == Seq::new(a.len(), |i: int| rules.sum(rules.product(a[i], beta), rules.product(b[i], alpha)));
            &&& mixes(n.l1.w, o.l1.w, r.l1.w) && mixes(n.l1.b, o.l1.b, r.l1.b)
            &&& mixes(n.l2.w, o.l2.w, r.l2.w) && mixes(n.l2.b, o.l2.b, r.l2.b)
            &&& mixes(n.l3.w, o.l3.w, r.l3.w) && mixes(n.l3.b, o.l3.b, r.l3.b)
            &&& mixes(n.l4.w, o.l4.w, r.l4.w) && mixes(n.l4.b, o.l4.b, r.l4.b)
        }),
        ({
            let r = rules.net_divided(n, k);
            let shares = |a: Seq<Scalar>, c: Seq<Scalar>| c == Seq::new(a.len(), |i: int| rules.quotient(a[i], k));
            &&& shares(n.l1.w, r.l1.w) && shares(n.l1.b, r.l1.b) && shares(n.l2.w, r.l2.w) && shares(n.l2.b, r.l2.b)
            &&& shares(n.l3.w, r.l3.w) && shares(n.l3.b, r.l3.b) && shares(n.l4.w, r.l4.w) && shares(n.l4.b, r.l4.b)
        }),
        ({
            let r = rules.net_added(n, o);
            let adds = |a: Seq<Scalar>, b: Seq<Scalar>, c: Seq<Scalar>|
                c == Seq::new(a.len(), |i: int| rules.sum(a[i], b[i]));
            &&& adds(n.l1.w, o.l1.w, r.l1.w) && adds(n.l1.b, o.l1.b, r.l1.b)
            &&& adds(n.l2.w, o.l2.w, r.l2.w) && adds(n.l2.b, o.l2.b, r.l2.b)
            &&& adds(n.l3.w, o.l3.w, r.l3.w) && adds(n.l3.b, o.l3.b, r.l3.b)
            &&& adds(n.l4.w, o.l4.w, r.l4.w) && adds(n.l4.b, o.l4.b, r.l4.b)
        }),
{
}

/// A network starts without biases, and with weights spread evenly over both signs:
/// the least number drawn gives the limit below, half nothing, and one the limit; the
/// square of the limit, times the sizes of both layers, is six.
pub proof fn law_weights_start_small(rules: ArithRules, rng: Stream, rows: nat, cols: nat, limit: Scalar, half: Scalar)
    requires
        rules.keeps_ones(),
        rules.keeps_zeros(),
        rules.keeps_selves(),
        rules.keeps_signs(),
        limit.is_finite(),
        rules.product(half, Scalar { key: TWO_KEY }) == Scalar::one(),
        rules.product(Scalar::one(), Scalar { key: TWO_KEY }) == (Scalar { key: TWO_KEY }),
        rules.difference(Scalar { key: TWO_KEY }, Scalar::one()) == Scalar::one(),
        rules.difference(Scalar::zero(), Scalar::one()) == Scalar::one().negated(),
        ({
            let share = rules.quotient(Scalar { key: SIX_KEY }, rules.of_count((rows + cols) as usize));
            &&& rules.product(rules.root(share), rules.root(share)) == share
            &&& rules.product(share, rules.of_count((rows + cols) as usize)) == (Scalar { key: SIX_KEY })
        }),
    ensures
        rules.first_layer(rng, rows, cols).b == zeros(rows),
        rules.spread(Scalar::zero(), limit) == limit.negated(),
        rules.spread(half, limit) == Scalar::zero(),
        rules.spread(Scalar::one(), limit) == limit,
        ({
            let top = rules.weight_limit((rows + cols) as usize);
            &&& rules.product(rules.product(top, top), rules.of_count((rows + cols) as usize)) == (Scalar {
                key: SIX_KEY,
            })
            &&& forall|i: int|
                0 <= i < rows * cols ==> #[trigger] rules.first_layer(rng, rows, cols).w[i] == rules.spread(
                    drawn(rng, i as nat).value(),
                    top,
                )
        }),
{
    assert(rules.product(Scalar::one().negated(), limit) == rules.product(Scalar::one(), limit).negated());
    assert(rules.product(Scalar::zero(), Scalar { key: TWO_KEY }) == Scalar::zero());
}

} // verus!
