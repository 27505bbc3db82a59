//! Training of the network: how samples are dealt out to steps, and what a step does.
use vstd::prelude::*;
use crate::arith::{Arith, ArithRules};
use crate::nirc::mlp::{zero_net, Net, NircMlp, NircMlpGradients};
use crate::nirc::optimizer::{fresh_adam, Adam, AdamOptimizer};
use crate::nirc::ring::Sample;
use crate::scalar::Scalar;
use crate::tracer::bounce::to_list;
use crate::tracer::config::SamplingStrategy;

verus! {

/// Key of three ten-thousandths.
pub const LEARNING_RATE_KEY: i32 = 0x399d_4952;

/// Key of one tenth.
pub const EMA_ALPHA_KEY: i32 = 0x3dcc_cccd;

/// How a network is trained.
#[derive(Clone, Copy, PartialEq, Eq, Structural, Debug)]
pub struct NircConfig {
    pub learning_rate: Scalar,
    pub batch_size: usize,
    /// Weight of a training step in the smoothed network.
    pub ema_alpha: Scalar,
}

impl Default for NircConfig {
    fn default() -> (r: NircConfig)
        ensures
            r == (NircConfig {
                learning_rate: Scalar { key: LEARNING_RATE_KEY },
                batch_size: 64,
                ema_alpha: Scalar { key: EMA_ALPHA_KEY },
            }),
    {
        NircConfig {
            learning_rate: Scalar { key: LEARNING_RATE_KEY },
            batch_size: 64,
            ema_alpha: Scalar { key: EMA_ALPHA_KEY },
        }
    }
}

/// A run of samples, from its first to beyond its last.
#[derive(Clone, Copy, PartialEq, Eq, Structural, Debug)]
pub struct Batch {
    pub start: usize,
    pub end: usize,
}

/// The `i`th batch of a number of samples: a full one, or what is left.
pub open spec fn batch_at(samples: int, size: int, i: int) -> (int, int) {
    (i * size, if (i + 1) * size < samples {
        (i + 1) * size
    } else {
        samples
    })
}

/// Deals samples out to batches, in order.
pub fn batches(samples: usize, batch_size: usize) -> (r: Vec<Batch>)
    requires
        batch_size > 0,
    ensures
        samples == 0 <==> r.len() == 0,
        forall|i: int|
            0 <= i < r.len() ==> ((#[trigger] r[i]).start as int, r[i].end as int) == batch_at(
                samples as int,
                batch_size as int,
                i,
            ),
        forall|i: int| 0 <= i < r.len() ==> (#[trigger] r[i]).start < r[i].end <= samples,
        r.len() > 0 ==> r[r.len() - 1].end == samples,
{
    let mut r: Vec<Batch> = Vec::new();
    let mut start: usize = 0;
    while start < samples
        invariant
            batch_size > 0,
            r.len() == 0 <==> start == 0,
            start <= samples,
            start < samples ==> start == r.len() * batch_size,
            start == samples && samples > 0 ==> r.len() > 0 && r[r.len() - 1].end == samples,
            forall|i: int|
                0 <= i < r.len() ==> ((#[trigger] r[i]).start as int, r[i].end as int) == batch_at(
                    samples as int,
                    batch_size as int,
                    i,
                ),
            forall|i: int| 0 <= i < r.len() ==> (#[trigger] r[i]).start < r[i].end <= samples,
        decreases samples - start,
    {
        proof {
            let k = r.len() as int;
            let b = batch_size as int;
            assert((k + 1) * b == k * b + b) by (nonlinear_arith);
        }
        let end: usize = if batch_size < samples - start { start + batch_size } else { samples };
        r.push(Batch { start, end });
        start = end;
    }
    r
}

/// Every sample is in one batch, the one that its index divided by the batch
/// size gives.
pub proof fn law_sample_in_one_batch(samples: int, size: int, j: int, i: int)
    requires
        size > 0,
        0 <= j < samples,
        0 <= i,
        i * size < samples,
    ensures
        batch_at(samples, size, i).0 <= j < batch_at(samples, size, i).1 <==> i == j / size,
        (j / size) * size < samples,
{
    vstd::arithmetic::div_mod::lemma_fundamental_div_mod(j, size);
    vstd::arithmetic::div_mod::lemma_mod_bound(j, size);
    let q = j / size;
    assert(size * q == q * size) by (nonlinear_arith);
    assert((i + 1) * size == i * size + size) by (nonlinear_arith);
    if i < q {
        assert((i + 1) * size <= q * size) by (nonlinear_arith)
            requires
                i + 1 <= q,
                size > 0,
        ;
    } else if i > q {
        assert((q + 1) * size <= i * size) by (nonlinear_arith)
            requires
                q + 1 <= i,
                size > 0,
        ;
        assert((q + 1) * size == q * size + size) by (nonlinear_arith);
    }
}

/// Number of random samples read from the ring per training call.
pub const RING_TRAIN_BATCH: usize = 512;

/// Whether a training call does anything: only under the strategy that uses the
/// network, with something to learn from, and while nobody else trains.
#[verifier::allow_in_spec]
pub fn is_training_due(strategy: SamplingStrategy, samples: usize, trainer_is_free: bool) -> bool
    returns
        strategy == SamplingStrategy::Nirc && samples > 0 && trainer_is_free,
{
    strategy == SamplingStrategy::Nirc && samples > 0 && trainer_is_free
}

/// A network in training, with its optimizer.
#[verifier::ext_equal]
pub struct Training {
    pub net: Net,
    pub opt: Adam,
}

/// What some samples of a batch add up to.
#[verifier::ext_equal]
pub struct Progress {
    pub grads: Net,
    pub loss: Scalar,
}

/// A network after some batches, and their losses added up.
#[verifier::ext_equal]
pub struct Schooling {
    pub training: Training,
    pub loss: Scalar,
}

/// Number of batches that samples are dealt out to.
pub open spec fn batch_count(samples: int, size: int) -> nat {
    ((samples + size - 1) / size) as nat
}

/// The samples of a batch.
pub open spec fn batch_of(samples: Seq<Sample>, size: int, i: int) -> Seq<Sample> {
    samples.subrange(batch_at(samples.len() as int, size, i).0, batch_at(samples.len() as int, size, i).1)
}

impl ArithRules {
    /// What the first `k` samples of a batch add up to.
    pub open spec fn progress(self, net: Net, batch: Seq<Sample>, k: nat) -> Progress
        decreases k,
    {
        if k == 0 {
            Progress { grads: zero_net(), loss: Scalar::zero() }
        } else {
            let before = self.progress(net, batch, (k - 1) as nat);
            let s = batch[k - 1];
            let pred = self.forward(net, s.input@);
            Progress {
                grads: self.backward(
                    net,
                    self.pass(net, s.input@),
                    self.loss_slopes(pred, s.target@),
                    before.grads,
                ),
                loss: self.sum(before.loss, self.loss(pred, s.target@)),
            }
        }
    }

    /// The mean gradient of a batch.
    pub open spec fn batch_gradient(self, net: Net, batch: Seq<Sample>) -> Net {
        self.net_divided(self.progress(net, batch, batch.len()).grads, self.of_count(batch.len() as usize))
    }

    /// The mean loss of a batch.
    pub open spec fn batch_loss(self, net: Net, batch: Seq<Sample>) -> Scalar {
        self.quotient(self.progress(net, batch, batch.len()).loss, self.of_count(batch.len() as usize))
    }

    /// A network after one step on a batch.
    pub open spec fn after_batch(self, t: Training, batch: Seq<Sample>) -> Training {
        let grads = self.batch_gradient(t.net, batch);
        Training { net: self.net_after(t.opt, t.net, grads), opt: self.adam_after(t.opt, grads) }
    }

    /// A network after the first `k` batches.
    pub open spec fn schooled(self, t: Training, samples: Seq<Sample>, size: int, k: nat) -> Schooling
        decreases k,
    {
        if k == 0 {
            Schooling { training: t, loss: Scalar::zero() }
        } else {
            let before = self.schooled(t, samples, size, (k - 1) as nat);
            let batch = batch_of(samples, size, k - 1);
            Schooling {
                training: self.after_batch(before.training, batch),
                loss: self.sum(before.loss, self.batch_loss(before.training.net, batch)),
            }
        }
    }
}

/// Adds up the gradients and the losses of some samples, from zero.
fn sum_over<M: Arith>(
    math: &M,
    network: &NircMlp,
    samples: &Vec<Sample>,
    start: usize,
    end: usize,
    grads: &mut NircMlpGradients,
) -> (loss: Scalar)
    requires
        network@.valid(),
        start <= end <= samples.len(),
        old(grads)@ == zero_net(),
        old(grads)@.valid(),
    ensures
        final(grads)@.valid(),
        forall|rules: ArithRules| #[trigger]
            rules.describe(*math) ==> rules.progress(
                network@,
                samples@.subrange(start as int, end as int),
                (end - start) as nat,
            ) == (Progress { grads: final(grads)@, loss }),
{
    let mut loss = Scalar::zero();
    let ghost batch = samples@.subrange(start as int, end as int);
    let mut i: usize = start;
    while i < end
        invariant
            start <= i <= end <= samples.len(),
            batch == samples@.subrange(start as int, end as int),
            network@.valid(),
            grads@.valid(),
            forall|rules: ArithRules| #[trigger]
                rules.describe(*math) ==> rules.progress(network@, batch, (i - start) as nat) == (Progress {
                    grads: grads@,
                    loss,
                }),
        decreases end - i,
    {
        let s = samples[i];
        assert(batch[i - start] == s);
        let (pred, cache) = network.forward_for_training(math, to_list(&s.input));
        let dl_dy = NircMlp::compute_loss_derivative(math, &pred, &s.target);
        loss = math.sum(loss, NircMlp::compute_loss(math, &pred, &s.target));
        network.backward_into(math, &cache, &dl_dy, grads);
        i = i + 1;
    }
    loss
}

impl NircMlp {
    /// One step of an optimizer on a batch. Returns the mean loss and leaves the
    /// mean gradient in `grads`. Without samples nothing happens.
    pub fn train_batch<M: Arith>(
        &mut self,
        math: &M,
        opt: &mut AdamOptimizer,
        grads: &mut NircMlpGradients,
        batch: &Vec<Sample>,
    ) -> (r: Scalar)
        requires
            old(self)@.valid(),
            old(opt)@.valid(),
            old(opt).t < u32::MAX,
        ensures
            batch.len() == 0 ==> {
                &&& r == Scalar::zero()
                &&& *final(self) == *old(self)
                &&& *final(opt) == *old(opt)
                &&& *final(grads) == *old(grads)
            },
            batch.len() > 0 ==> final(self)@.valid() && final(opt)@.valid() && final(opt).t == old(opt).t + 1,
            forall|rules: ArithRules| #[trigger]
                rules.describe(*math) && batch.len() > 0 ==> {
                    &&& r == rules.batch_loss(old(self)@, batch@)
                    &&& final(grads)@ == rules.batch_gradient(old(self)@, batch@)
                    &&& (Training { net: final(self)@, opt: final(opt)@ }) == rules.after_batch(
                        (Training { net: old(self)@, opt: old(opt)@ }),
                        batch@,
                    )
                },
    {
        let len: usize = batch.len();
        if len == 0 {
            return Scalar::zero();
        }
        grads.zero_in_place();
        let loss = sum_over(math, self, batch, 0, len, grads);
        assert(batch@.subrange(0, len as int) =~= batch@);
        let n = math.of_count(len);
        grads.divide_by(math, n);
        opt.step(math, self, grads);
        math.quotient(loss, n)
    }
}

/// A network in training, and the smoothed copy that is used meanwhile.
pub struct NircTrainer {
    pub network: Box<NircMlp>,
    /// Smoothed copy, updated after each training call.
    pub ema_buf: Box<NircMlp>,
    pub optimizer: Box<AdamOptimizer>,
    pub config: NircConfig,
}

impl NircTrainer {
    /// Whether all parts fit together.
    pub open spec fn valid(self) -> bool {
        &&& self.network@.valid()
        &&& self.ema_buf@.valid()
        &&& self.optimizer@.valid()
    }

    /// The network in training.
    pub open spec fn training(self) -> Training {
        Training { net: self.network@, opt: self.optimizer@ }
    }

    /// A trainer of a fresh network. The smoothed copy starts as the network.
    pub fn new<M: Arith>(math: &M, config: NircConfig) -> (r: NircTrainer)
        ensures
            r.valid(),
            r.config == config,
            r.ema_buf@ == r.network@,
            r.optimizer@ == fresh_adam(config.learning_rate),
            forall|rules: ArithRules| #[trigger] rules.describe(*math) ==> r.network@ == rules.first_net(),
    {
        let network = NircMlp::new_boxed(math);
        let ema_buf = network.clone_boxed();
        NircTrainer { network, ema_buf, optimizer: AdamOptimizer::new_boxed(config.learning_rate), config }
    }

    /// One step on a batch of samples. Returns the mean loss.
    fn train_one_batch<M: Arith>(&mut self, math: &M, samples: &Vec<Sample>, start: usize, end: usize) -> (r: Scalar)
        requires
            old(self).valid(),
            old(self).optimizer.t < u32::MAX,
            start < end <= samples.len(),
        ensures
            final(self).valid(),
            final(self).config == old(self).config,
            final(self).ema_buf == old(self).ema_buf,
            final(self).optimizer.t == old(self).optimizer.t + 1,
            forall|rules: ArithRules| #[trigger]
                rules.describe(*math) ==> {
                    let batch = samples@.subrange(start as int, end as int);
                    &&& r == rules.batch_loss(old(self).network@, batch)
                    &&& final(self).training() == rules.after_batch(old(self).training(), batch)
                },
    {
        let mut grads = NircMlpGradients::zeros();
        let loss = sum_over(math, &self.network, samples, start, end, &mut grads);
        let n = math.of_count(end - start);
        grads.divide_by(math, n);
        self.optimizer.step(math, &mut self.network, &grads);
        math.quotient(loss, n)
    }

    /// Trains on samples in batches. Returns the mean loss over all batches, and
    /// moves the smoothed copy. Without samples nothing happens.
    pub fn train_samples<M: Arith>(&mut self, math: &M, samples: &Vec<Sample>) -> (r: Scalar)
        requires
            old(self).valid(),
            old(self).config.batch_size > 0,
            old(self).optimizer.t + batch_count(samples.len() as int, old(self).config.batch_size as int) <= u32::MAX,
        ensures
            final(self).valid(),
            final(self).config == old(self).config,
            samples.len() == 0 ==> r == Scalar::zero() && *final(self) == *old(self),
            samples.len() > 0 ==> forall|rules: ArithRules| #[trigger]
                rules.describe(*math) ==> {
                    let size = old(self).config.batch_size as int;
                    let n = batch_count(samples.len() as int, size);
                    let done = rules.schooled(old(self).training(), samples@, size, n);
                    &&& final(self).training() == done.training
                    &&& final(self).ema_buf@ == rules.net_smoothed(
                        old(self).ema_buf@,
                        done.training.net,
                        old(self).config.ema_alpha,
                    )
                    &&& r == rules.quotient(done.loss, rules.of_count(n as usize))
                },
    {
        if samples.len() == 0 {
            return Scalar::zero();
        }
        let plan = batches(samples.len(), self.config.batch_size);
        let ghost size = self.config.batch_size as int;
        proof {
            lemma_batch_count(samples.len() as int, size, plan.len() as int, plan[plan.len() - 1].start as int);
        }
        let mut total = Scalar::zero();
        let mut k: usize = 0;
        while k < plan.len()
            invariant
                k <= plan.len(),
                self.valid(),
                self.config == old(self).config,
                self.ema_buf == old(self).ema_buf,
                size == self.config.batch_size as int,
                self.optimizer.t == old(self).optimizer.t + k,
                old(self).optimizer.t + plan.len() <= u32::MAX,
                forall|i: int|
                    0 <= i < plan.len() ==> ((#[trigger] plan[i]).start as int, plan[i].end as int) == batch_at(
                        samples.len() as int,
                        size,
                        i,
                    ),
                forall|i: int| 0 <= i < plan.len() ==> (#[trigger] plan[i]).start < plan[i].end <= samples.len(),
                forall|rules: ArithRules| #[trigger]
                    rules.describe(*math) ==> rules.schooled(
                        old(self).training(),
                        samples@,
                        size,
                        k as nat,
                    ) == (Schooling { training: self.training(), loss: total }),
            decreases plan.len() - k,
        {
            let b = plan[k];
            let loss = self.train_one_batch(math, samples, b.start, b.end);
            total = math.sum(total, loss);
            k = k + 1;
        }
        self.ema_buf.ema(math, &self.network, self.config.ema_alpha);
        math.quotient(total, math.of_count(plan.len()))
    }
}

/// The number of batches, from where the last one starts.
proof fn lemma_batch_count(samples: int, size: int, n: int, last_start: int)
    requires
        size > 0,
        n > 0,
        last_start == (n - 1) * size,
        last_start < samples <= n * size,
    ensures
        batch_count(samples, size) == n,
        n <= samples,
{
    assert(n * size == (n - 1) * size + size) by (nonlinear_arith);
    let rest = samples - 1 - last_start;
    vstd::arithmetic::div_mod::lemma_fundamental_div_mod_converse(samples - 1, size, n - 1, rest);
    assert(samples + size - 1 == size * n + rest) by (nonlinear_arith)
        requires
            rest == samples - 1 - (n - 1) * size,
    ;
    vstd::arithmetic::div_mod::lemma_fundamental_div_mod_converse(samples + size - 1, size, n, rest);
    assert(n - 1 <= last_start) by (nonlinear_arith)
        requires
            last_start == (n - 1) * size,
            size >= 1,
            n >= 1,
    ;
}

/// A batch of one sample is learned from that sample: its gradient is that of the
/// sample over one, and its loss the sample's.
pub proof fn law_single_sample_is_its_batch(rules: ArithRules, net: Net, s: Sample)
    requires
        rules.keeps_ones(),
        rules.keeps_zeros(),
        rules.of_count(1) == Scalar::one(),
        rules.loss(rules.forward(net, s.input@), s.target@).ordered(),
    ensures
        rules.batch_loss(net, seq![s]) == rules.loss(rules.forward(net, s.input@), s.target@),
        rules.batch_gradient(net, seq![s]) == rules.net_divided(
            rules.backward(
                net,
                rules.pass(net, s.input@),
                rules.loss_slopes(rules.forward(net, s.input@), s.target@),
                zero_net(),
            ),
            Scalar::one(),
        ),
{
    reveal_with_fuel(ArithRules::progress, 2);
}

/// A batch is learned from sample by sample: each adds its loss, and its gradient at
/// the network before the step; the mean of both is over the number of samples,
/// wherever dividing can be undone.
pub proof fn law_batch_adds_up_its_samples(rules: ArithRules, net: Net, batch: Seq<Sample>, k: nat)
    requires
        k < batch.len(),
        ({
            let n = rules.of_count(batch.len() as usize);
            let loss = rules.progress(net, batch, batch.len()).loss;
            rules.product(rules.quotient(loss, n), n) == loss
        }),
    ensures
        ({
            let before = rules.progress(net, batch, k);
            let after = rules.progress(net, batch, (k + 1) as nat);
            let s = batch[k as int];
            let pred = rules.forward(net, s.input@);
            &&& after.loss == rules.sum(before.loss, rules.loss(pred, s.target@))
            &&& after.grads == rules.backward(
                net,
                rules.pass(net, s.input@),
                rules.loss_slopes(pred, s.target@),
                before.grads,
            )
        }),
        rules.progress(net, batch, 0).grads == zero_net(),
        rules.product(rules.batch_loss(net, batch), rules.of_count(batch.len() as usize)) == rules.progress(
            net,
            batch,
            batch.len(),
        ).loss,
{
}

/// A step on a batch moves the network by the mean gradient of the batch at the
/// network as it was, and the optimizer along with it.
pub proof fn law_step_uses_the_batch(rules: ArithRules, t: Training, batch: Seq<Sample>)
    ensures
        ({
            let next = rules.after_batch(t, batch);
            let mean = rules.net_divided(
                rules.progress(t.net, batch, batch.len()).grads,
                rules.of_count(batch.len() as usize),
            );
            next.net == rules.net_after(t.opt, t.net, mean) && next.opt == rules.adam_after(t.opt, mean)
        }),
{
}

/// Batches are learned from in order, each by the network that those before have left;
/// their losses add up.
pub proof fn law_batches_are_learned_in_order(rules: ArithRules, t: Training, samples: Seq<Sample>, size: int, k: nat)
    ensures
        rules.schooled(t, samples, size, 0).training == t,
        ({
            let before = rules.schooled(t, samples, size, k);
            let after = rules.schooled(t, samples, size, (k + 1) as nat);
            let end = if (k + 1) * size < samples.len() {
                (k + 1) * size
            } else {
                samples.len() as int
            };
            let batch = samples.subrange(k * size, end);
            &&& after.training == rules.after_batch(before.training, batch)
            &&& after.loss == rules.sum(before.loss, rules.batch_loss(before.training.net, batch))
        }),
{
}

} // verus!
