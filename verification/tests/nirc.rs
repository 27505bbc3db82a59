//! The radiance cache and its training, with the arithmetic of the machine.
use rnpt::arith::Arith;
use rnpt::nirc::encoding::{encode_inputs, INPUT_DIM};
use rnpt::nirc::mlp::{Layer, NircMlp, NircMlpGradients};
use rnpt::nirc::optimizer::AdamOptimizer;
use rnpt::nirc::ring::{NircRingBuffer, Sample, RING_CAPACITY};
use rnpt::nirc::trainer::{batches, is_training_due, NircConfig, NircTrainer};
use rnpt::nrc::{NrcMlp, NrcMlpGradients};
use rnpt::pcg32::Pcg32;
use rnpt::scalar::{Point3, Scalar};
use rnpt::tracer::config::SamplingStrategy;

fn s(x: f32) -> Scalar {
    Scalar::from_bits(x.to_bits())
}

fn f(x: Scalar) -> f32 {
    f32::from_bits(x.to_bits())
}

fn point(p: [f32; 3]) -> Point3 {
    Point3 { x: s(p[0]), y: s(p[1]), z: s(p[2]) }
}

/// Single-precision arithmetic of the machine.
struct Machine;

impl Arith for Machine {
    fn sum(&self, a: Scalar, b: Scalar) -> Scalar {
        s(f(a) + f(b))
    }

    fn difference(&self, a: Scalar, b: Scalar) -> Scalar {
        s(f(a) - f(b))
    }

    fn product(&self, a: Scalar, b: Scalar) -> Scalar {
        s(f(a) * f(b))
    }

    fn quotient(&self, a: Scalar, b: Scalar) -> Scalar {
        s(f(a) / f(b))
    }

    fn fused(&self, a: Scalar, b: Scalar, c: Scalar) -> Scalar {
        s(f(a).mul_add(f(b), f(c)))
    }

    fn root(&self, a: Scalar) -> Scalar {
        s(f(a).sqrt())
    }

    fn sine(&self, a: Scalar) -> Scalar {
        s(f(a).sin())
    }

    fn cosine(&self, a: Scalar) -> Scalar {
        s(f(a).cos())
    }

    fn slope(&self, a: Scalar) -> Scalar {
        s(f(a).tan())
    }

    fn arc_cosine(&self, a: Scalar) -> Scalar {
        s(f(a).acos())
    }

    fn arc_tangent(&self, y: Scalar, x: Scalar) -> Scalar {
        s(f(y).atan2(f(x)))
    }

    fn power(&self, a: Scalar, b: Scalar) -> Scalar {
        s(f(a).powf(f(b)))
    }

    fn whole_power(&self, a: Scalar, n: i32) -> Scalar {
        s(f(a).powi(n))
    }

    fn wrapped(&self, a: Scalar, b: Scalar) -> Scalar {
        s(f(a).rem_euclid(f(b)))
    }

    fn floor(&self, a: Scalar) -> Scalar {
        s(f(a).floor())
    }

    fn exponential(&self, a: Scalar) -> Scalar {
        s(f(a).exp())
    }

    fn logarithm(&self, a: Scalar) -> Scalar {
        s(f(a).ln())
    }

    fn of_count(&self, n: usize) -> Scalar {
        s(n as f32)
    }

    fn to_count(&self, a: Scalar) -> usize {
        f(a) as usize
    }

    fn of_index(&self, n: i32) -> Scalar {
        s(n as f32)
    }

    fn to_index(&self, a: Scalar) -> i32 {
        f(a) as i32
    }

    fn to_natural(&self, a: Scalar) -> u32 {
        f(a) as u32
    }

    fn inner(&self, a: &Vec<Scalar>, b: &Vec<Scalar>) -> Scalar {
        s(a.iter().zip(b).map(|(x, y)| f(*x) * f(*y)).sum())
    }
}

fn make_bounds() -> (Point3, Point3) {
    (point([-5.0, -2.0, -5.0]), point([5.0, 4.0, 5.0]))
}

#[test]
fn encode_inputs_deterministic() {
    let pos = point([1.0, 0.5, -1.0]);
    let dir = point([0.0, 1.0, 0.0]);
    let (bmin, bmax) = make_bounds();
    let a = encode_inputs(&Machine, &pos, &dir, &bmin, &bmax);
    let b = encode_inputs(&Machine, &pos, &dir, &bmin, &bmax);
    assert_eq!(a, b);
}

#[test]
fn encode_inputs_output_dim() {
    let pos = point([0.0, 0.0, 0.0]);
    let dir = point([0.0, 0.0, 1.0]);
    let (bmin, bmax) = make_bounds();
    let v = encode_inputs(&Machine, &pos, &dir, &bmin, &bmax);
    assert_eq!(v.len(), INPUT_DIM);
}

#[test]
fn encode_inputs_different_positions_give_different_outputs() {
    let (bmin, bmax) = make_bounds();
    let dir = point([0.0, 1.0, 0.0]);
    let a = encode_inputs(&Machine, &point([0.0, 0.0, 0.0]), &dir, &bmin, &bmax);
    let b = encode_inputs(&Machine, &point([4.0, 2.0, 3.0]), &dir, &bmin, &bmax);
    assert_ne!(a, b, "different positions should produce different encodings");
}

#[test]
fn encode_inputs_different_directions_give_different_outputs() {
    let (bmin, bmax) = make_bounds();
    let pos = point([1.0, 1.0, 1.0]);
    let a = encode_inputs(&Machine, &pos, &point([1.0, 0.0, 0.0]), &bmin, &bmax);
    let b = encode_inputs(&Machine, &pos, &point([0.0, 1.0, 0.0]), &bmin, &bmax);
    assert_ne!(a, b, "different directions should produce different encodings");
}

#[test]
fn encode_inputs_position_at_bounds_min() {
    // Position exactly at bounds_min → normalized pos = (0,0,0).
    let bmin = point([-1.0, -1.0, -1.0]);
    let bmax = point([1.0, 1.0, 1.0]);
    let dir  = point([0.0, 1.0, 0.0]);
    let v = encode_inputs(&Machine, &bmin, &dir, &bmin, &bmax);
    for &x in v.iter() {
        let x = f(x);
        assert!(x.is_finite(), "non-finite encoding: {x}");
    }
}

#[test]
fn loss_zero_when_pred_equals_target() {
    let x = [1.0, 2.0, 0.5].map(s);
    let loss = f(NircMlp::compute_loss(&Machine, &x.to_vec(), &x));
    assert!(loss.abs() < 1e-6, "loss should be 0 when pred == target: {loss}");
}

#[test]
fn loss_non_negative() {
    let pred = [0.5, 1.0, 2.0].map(s);
    let target = [1.0, 0.5, 3.0].map(s);
    assert!(f(NircMlp::compute_loss(&Machine, &pred.to_vec(), &target)) >= 0.0);
}

#[test]
fn loss_symmetric_in_log_space() {
    // log-MSE: (log(1+a) - log(1+b))² = (log(1+b) - log(1+a))²
    let a = [1.0, 2.0, 3.0].map(s);
    let b = [2.0, 1.0, 5.0].map(s);
    // Note: the network clips pred to 0 on the negative side, so symmetry only
    // holds when both pred and target are positive.
    let lab = f(NircMlp::compute_loss(&Machine, &a.to_vec(), &b));
    let lba = f(NircMlp::compute_loss(&Machine, &b.to_vec(), &a));
    assert!((lab - lba).abs() < 1e-5, "loss not symmetric: {lab} vs {lba}");
}

#[test]
fn loss_derivative_zero_at_minimum() {
    let x = [1.0, 2.0, 0.5].map(s);
    let dl_dy = NircMlp::compute_loss_derivative(&Machine, &x.to_vec(), &x);
    for &g in dl_dy.iter() {
        let g = f(g);
        assert!(g.abs() < 1e-5, "gradient non-zero at minimum: {g}");
    }
}

#[test]
fn forward_pass_finite() {
    let network = NircMlp::new_boxed(&Machine);
    let (bmin, bmax) = make_bounds();
    let pos = point([0.5, 1.0, -0.5]);
    let dir = point([0.0, 1.0, 0.0]);
    let input = encode_inputs(&Machine, &pos, &dir, &bmin, &bmax);
    let output = network.forward(&Machine, &input.to_vec());
    for &v in output.iter() {
        let v = f(v);
        assert!(v.is_finite(), "non-finite network output: {v}");
    }
}

#[test]
fn ring_starts_empty() {
    let ring = NircRingBuffer::new();
    assert_eq!(ring.filled(), 0);
    assert!(ring.read_random_batch(10).is_empty());
}

#[test]
fn ring_filled_increases_with_pushes() {
    let mut ring = NircRingBuffer::new();
    let zero = Sample { input: [s(0.0); 9], target: [s(0.0); 3] };
    ring.push(zero);
    assert_eq!(ring.filled(), 1);
    ring.push(zero);
    assert_eq!(ring.filled(), 2);
}

#[test]
fn ring_filled_caps_at_capacity() {
    let mut ring = NircRingBuffer::new();
    let zero = Sample { input: [s(0.0); 9], target: [s(0.0); 3] };
    for _ in 0..(RING_CAPACITY + 10) {
        ring.push(zero);
    }
    assert_eq!(ring.filled(), RING_CAPACITY);
}

#[test]
fn ring_read_batch_respects_count() {
    let mut ring = NircRingBuffer::new();
    let zero = Sample { input: [s(0.0); 9], target: [s(0.0); 3] };
    for _ in 0..100 {
        ring.push(zero);
    }
    let batch = ring.read_random_batch(32);
    assert_eq!(batch.len(), 32);
}

#[test]
fn ring_read_batch_capped_by_filled() {
    let mut ring = NircRingBuffer::new();
    let zero = Sample { input: [s(0.0); 9], target: [s(0.0); 3] };
    for _ in 0..5 {
        ring.push(zero);
    }
    let batch = ring.read_random_batch(100);
    assert_eq!(batch.len(), 5);
}

#[test]
fn trainer_loss_decreases_on_repeated_training() {
    let config = NircConfig { learning_rate: s(1e-3), batch_size: 32, ema_alpha: s(0.1) };
    let mut trainer = NircTrainer::new(&Machine, config);
    let (bmin, bmax) = make_bounds();

    // Build a fixed synthetic dataset: network should learn constant radiance.
    let target_rgb = [2.0f32, 1.0, 0.5];
    let mut rng = Pcg32::from_seed_128(42);
    let samples: Vec<_> = (0..256).map(|_| {
        let pos = point([
            f(rng.next_f32()) * 10.0 - 5.0,
            f(rng.next_f32()) * 6.0 - 2.0,
            f(rng.next_f32()) * 10.0 - 5.0,
        ]);
        let theta = f(rng.next_f32()) * std::f32::consts::PI;
        let phi   = f(rng.next_f32()) * 2.0 * std::f32::consts::PI;
        let dir = point([theta.sin() * phi.cos(), theta.cos(), theta.sin() * phi.sin()]);
        let input  = encode_inputs(&Machine, &pos, &dir, &bmin, &bmax);
        Sample { input, target: target_rgb.map(s) }
    }).collect();

    let loss_before = f(trainer.train_samples(&Machine, &samples));
    let mut loss_after = loss_before;
    for _ in 0..20 {
        loss_after = f(trainer.train_samples(&Machine, &samples));
    }
    assert!(loss_after < loss_before, "loss did not decrease: {loss_before} → {loss_after}");
}

#[test]
fn batch_step_is_that_of_the_trainer() {
    let config = NircConfig { learning_rate: s(1e-3), batch_size: 4, ema_alpha: s(0.1) };
    let mut trainer = NircTrainer::new(&Machine, config);
    let mut network = trainer.network.clone_boxed();
    let mut opt = AdamOptimizer::new_boxed(config.learning_rate);
    let mut grads = NircMlpGradients::zeros();
    let samples: Vec<Sample> = (0..3)
        .map(|i| Sample { input: [s(0.1 * i as f32); INPUT_DIM], target: [s(2.0), s(1.0), s(0.5)] })
        .collect();
    let before = network.l1.w.clone();
    assert_eq!(network.train_batch(&Machine, &mut opt, &mut grads, &vec![]), s(0.0));
    assert_eq!(network.l1.w, before);
    let loss = network.train_batch(&Machine, &mut opt, &mut grads, &samples);
    assert_eq!(loss, trainer.train_samples(&Machine, &samples));
    assert_eq!(network.l1.w, trainer.network.l1.w);
    assert_eq!(network.l4.b, trainer.network.l4.b);
    assert_ne!(network.l1.w, before);
    assert!(f(loss) > 0.0);
}

#[test]
fn encoding_of_the_middle() {
    let (lo, hi) = (point([-1.0, 0.0, 2.0]), point([1.0, 2.0, 6.0]));
    let v = encode_inputs(&Machine, &point([0.0, 1.0, 4.0]), &point([0.0, 1.0, 0.0]), &lo, &hi);
    assert_eq!([f(v[0]), f(v[1]), f(v[2])], [1.0, 1.0, 1.0]);
}

#[test]
fn encoding_in_flat_bounds_is_central() {
    let flat = point([3.0, 3.0, 3.0]);
    let v = encode_inputs(&Machine, &point([7.0, -2.0, 3.0]), &point([0.0, 1.0, 0.0]), &flat, &flat);
    assert_eq!([f(v[0]), f(v[1]), f(v[2])], [1.0, 1.0, 1.0]);
}

#[test]
fn training_pass_gives_what_inference_gives() {
    let net = NircMlp::new_boxed(&Machine);
    let x: Vec<Scalar> = (0..9).map(|i| s(i as f32 * 0.1)).collect();
    let (out, _) = net.forward_for_training(&Machine, x.clone());
    assert_eq!(out, net.forward(&Machine, &x));
}

#[test]
fn gradients_predict_the_change_of_the_loss() {
    let mut net = NircMlp::new_boxed(&Machine);
    let x: Vec<Scalar> = (0..9).map(|i| s(0.3 - i as f32 * 0.07)).collect();
    let target = [0.7, 0.2, 1.5].map(s);
    let (out, cache) = net.forward_for_training(&Machine, x.clone());
    let dl_dy = NircMlp::compute_loss_derivative(&Machine, &out, &target);
    let mut grads = NircMlpGradients::zeros();
    net.backward_into(&Machine, &cache, &dl_dy, &mut grads);
    let at = 5;
    let step = 1e-2;
    let loss = |net: &NircMlp| f(NircMlp::compute_loss(&Machine, &net.forward(&Machine, &x), &target));
    let w = f(net.l3.w[at]);
    net.l3.w[at] = s(w + step);
    let up = loss(&net);
    net.l3.w[at] = s(w - step);
    let down = loss(&net);
    let measured = (up - down) / (2.0 * step);
    let predicted = f(grads.l3.w[at]) * 2.0 / 3.0;
    assert!((measured - predicted).abs() < 1e-3 + predicted.abs() * 0.05, "{measured} vs {predicted}");
}

#[test]
fn gradients_add_up_and_divide() {
    let mut a = NircMlpGradients::zeros();
    let mut b = NircMlpGradients::new_boxed();
    a.l1.w[3] = s(1.0);
    b.l1.w[3] = s(3.0);
    b.l4.b[2] = s(-2.0);
    a.add_gradients(&Machine, &b);
    assert_eq!((f(a.l1.w[3]), f(a.l4.b[2])), (4.0, -2.0));
    a.divide_by(&Machine, s(4.0));
    assert_eq!((f(a.l1.w[3]), f(a.l4.b[2])), (1.0, -0.5));
    a.zero_in_place();
    assert_eq!((f(a.l1.w[3]), f(a.l4.b[2])), (0.0, 0.0));
}

#[test]
fn smoothing_moves_toward_the_other_network() {
    let a = NircMlp::new_boxed(&Machine);
    let mut b = a.clone_boxed();
    b.l2.b[0] = s(1.0);
    b.ema(&Machine, &a, s(0.25));
    assert_eq!(f(b.l2.b[0]), 0.75);
    assert_eq!(b.l1.w, a.l1.w);
}

#[test]
fn first_step_moves_by_the_learning_rate() {
    let mut net = NircMlp::new_boxed(&Machine);
    let mut adam = AdamOptimizer::new_boxed(s(0.01));
    let mut grads = NircMlpGradients::zeros();
    grads.l1.b[0] = s(2.0);
    let before = f(net.l1.b[0]);
    let still = f(net.l1.b[1]);
    adam.step(&Machine, &mut net, &grads);
    assert!((before - f(net.l1.b[0]) - 0.01).abs() < 1e-4);
    assert_eq!(f(net.l1.b[1]), still);
    assert_eq!(adam.t, 1);
}

#[test]
fn ring_keeps_the_latest() {
    let mut ring = NircRingBuffer::new();
    for i in 0..RING_CAPACITY + 3 {
        ring.push(Sample { input: [s(i as f32); 9], target: [s(0.0); 3] });
    }
    for x in ring.read_random_batch(2000) {
        assert!(f(x.input[0]) >= 3.0);
    }
}

#[test]
fn batches_cover_all_samples_once() {
    let b = batches(10, 4);
    let runs: Vec<(usize, usize)> = b.iter().map(|x| (x.start, x.end)).collect();
    assert_eq!(runs, [(0, 4), (4, 8), (8, 10)]);
    assert!(batches(0, 4).is_empty());
}

#[test]
fn training_waits_for_samples_and_a_free_trainer() {
    assert!(is_training_due(SamplingStrategy::Nirc, 1, true));
    assert!(!is_training_due(SamplingStrategy::Nirc, 0, true));
    assert!(!is_training_due(SamplingStrategy::Nirc, 1, false));
    assert!(!is_training_due(SamplingStrategy::Mis, 1, true));
}

#[test]
fn no_samples_no_training() {
    let mut trainer = NircTrainer::new(&Machine, NircConfig::default());
    let before = trainer.network.clone_boxed();
    assert_eq!(f(trainer.train_samples(&Machine, &vec![])), 0.0);
    assert_eq!(trainer.network.l1.w, before.l1.w);
    assert_eq!(trainer.optimizer.t, 0);
}

fn wide(rows: usize, cols: usize, seed: &mut Pcg32) -> Layer {
    let mut draw = |n: usize| (0..n).map(|_| s(f(seed.next_f32()) * 0.2 - 0.1)).collect::<Vec<Scalar>>();
    Layer { rows, cols, w: draw(rows * cols), b: draw(rows) }
}

fn wide_net() -> NrcMlp {
    let mut rng = Pcg32::from_seed_128(9);
    NrcMlp {
        l1: wide(64, 64, &mut rng),
        l2: wide(64, 64, &mut rng),
        l3: wide(64, 64, &mut rng),
        l4: wide(64, 64, &mut rng),
    }
}

#[test]
fn wide_training_pass_gives_what_inference_gives() {
    let net = wide_net();
    let x: Vec<Scalar> = (0..64).map(|i| s(i as f32 / 64.0)).collect();
    let (out, cache) = net.forward_for_training(&Machine, x.clone());
    assert_eq!(out, net.forward(&Machine, &x));
    assert_eq!(cache.z4, out);
}

#[test]
fn wide_gradients_predict_the_change_of_an_output() {
    let mut net = wide_net();
    let x: Vec<Scalar> = (0..64).map(|i| s((i as f32 * 0.7).sin())).collect();
    let (_, cache) = net.forward_for_training(&Machine, x.clone());
    let mut dl_dy = vec![s(0.0); 64];
    dl_dy[7] = s(1.0);
    let grads = net.backward(&Machine, &cache, dl_dy);
    let step = 0.1;
    let w = f(net.l2.w[100]);
    net.l2.w[100] = s(w + step);
    let up = f(net.forward(&Machine, &x)[7]);
    net.l2.w[100] = s(w - step);
    let down = f(net.forward(&Machine, &x)[7]);
    let measured = (up - down) / (2.0 * step);
    assert!((measured - f(grads.l2.w[100])).abs() < 1e-4, "{measured} vs {}", f(grads.l2.w[100]));
}

#[test]
fn relative_error_is_measured_against_the_prediction() {
    let mut pred = vec![s(0.0); 64];
    let mut target = vec![s(0.0); 64];
    pred[1] = s(2.0);
    target[1] = s(1.0);
    target[2] = s(0.5);
    let d = NrcMlp::compute_loss_derivative(&Machine, &pred, &target);
    assert_eq!(f(d[0]), 0.0);
    assert_eq!(f(d[1]), 1.0 / 4.01);
    assert_eq!(f(d[2]), -0.5 / 0.01);
}

#[test]
fn wide_optimizer_steps() {
    let mut net = wide_net();
    let mut adam = rnpt::nrc::AdamOptimizer::new(s(0.5));
    let mut grads = NrcMlpGradients::zeros();
    grads.l4.w[9] = s(-1.0);
    let before = f(net.l4.w[9]);
    adam.step(&Machine, &mut net, &grads);
    assert!((f(net.l4.w[9]) - before - 0.5).abs() < 1e-3);
    assert_eq!(adam.t, 1);
}
