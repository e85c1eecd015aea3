use neuro::activation::ActivationFunc;
use neuro::error_func::ErrorFunc;
use neuro::neuro::{NeuroError, NeuroLayer, NeuroNetwork, Sample};
use neuro::record::{json_to_network, neural_to_json, NeuroLayerJson, NeuroNetworkJson};
use neuro::scalar::{Scalar, WeightSource};

#[derive(Debug, Clone, Copy, PartialEq)]
struct F(f32);

impl Scalar for F {
    fn spec_zero() -> F {
        F::zero()
    }
    fn spec_from_usize(n: usize) -> F {
        F::from_usize(n)
    }
    fn spec_plus(self, rhs: F) -> F {
        self.plus(rhs)
    }
    fn spec_minus(self, rhs: F) -> F {
        self.minus(rhs)
    }
    fn spec_times(self, rhs: F) -> F {
        self.times(rhs)
    }
    fn spec_divided_by(self, rhs: F) -> F {
        self.divided_by(rhs)
    }
    fn spec_negated(self) -> F {
        self.negated()
    }
    fn spec_exp(self) -> F {
        self.exp()
    }
    fn spec_tanh(self) -> F {
        self.tanh()
    }
    fn spec_sqrt(self) -> F {
        self.sqrt()
    }
    fn spec_is_positive(self) -> bool {
        self.is_positive()
    }
    fn spec_is_zero(self) -> bool {
        self.is_zero()
    }
    fn spec_total_max(self, rhs: F) -> F {
        self.total_max(rhs)
    }
    fn zero() -> F {
        F(0.0)
    }
    fn from_usize(n: usize) -> F {
        F(n as f32)
    }
    fn plus(self, rhs: F) -> F {
        F(self.0 + rhs.0)
    }
    fn minus(self, rhs: F) -> F {
        F(self.0 - rhs.0)
    }
    fn times(self, rhs: F) -> F {
        F(self.0 * rhs.0)
    }
    fn divided_by(self, rhs: F) -> F {
        F(self.0 / rhs.0)
    }
    fn negated(self) -> F {
        F(-self.0)
    }
    fn exp(self) -> F {
        F(self.0.exp())
    }
    fn tanh(self) -> F {
        F(self.0.tanh())
    }
    fn sqrt(self) -> F {
        F(self.0.sqrt())
    }
    fn is_positive(self) -> bool {
        self.0 > 0.0
    }
    fn is_zero(self) -> bool {
        self.0 == 0.0
    }
    fn total_max(self, rhs: F) -> F {
        if self.0.total_cmp(&rhs.0) == std::cmp::Ordering::Greater {
            self
        } else {
            rhs
        }
    }
}

/// A seeded linear congruential source of uniform draws.
#[derive(Clone)]
struct Lcg(u64);

impl WeightSource<F> for Lcg {
    fn spec_draw(&self, bound: F) -> (Lcg, F) {
        let mut next = self.clone();
        let r = next.draw(bound);
        (next, r)
    }
    fn draw(&mut self, bound: F) -> F {
        self.0 = self
            .0
            .wrapping_mul(6364136223846793005)
            .wrapping_add(1442695040888963407);
        let u = (self.0 >> 40) as f32 / (1u64 << 24) as f32;
        F(-bound.0 + 2.0 * bound.0 * u)
    }
}

fn fv(v: &[f32]) -> Vec<F> {
    v.iter().map(|x| F(*x)).collect()
}

fn raw(v: &[F]) -> Vec<f32> {
    v.iter().map(|x| x.0).collect()
}

fn sample(data: &[f32], solution: &[f32]) -> Sample<F> {
    Sample { data: fv(data), solution: fv(solution) }
}

fn xor_samples() -> Vec<Sample<F>> {
    vec![
        sample(&[1.0, 1.0], &[1.0, 0.0]),
        sample(&[1.0, 0.0], &[0.0, 1.0]),
        sample(&[0.0, 1.0], &[0.0, 1.0]),
        sample(&[0.0, 0.0], &[1.0, 0.0]),
    ]
}

fn network(sizes: Vec<usize>, seed: u64) -> NeuroNetwork<F> {
    NeuroNetwork::new(sizes, &mut Lcg(seed)).unwrap()
}

fn all_weights(net: &NeuroNetwork<F>) -> Vec<Vec<Vec<u32>>> {
    net.layers
        .iter()
        .map(|l| l.weights.iter().map(|r| r.iter().map(|x| x.0.to_bits()).collect()).collect())
        .collect()
}

fn all_biases(net: &NeuroNetwork<F>) -> Vec<Vec<u32>> {
    net.layers.iter().map(|l| l.basis.iter().map(|x| x.0.to_bits()).collect()).collect()
}

fn sigmoid(x: f32) -> f32 {
    1.0 / (1.0 + (-x).exp())
}

#[test]
fn new_has_defaults() {
    let net = network(vec![2, 3, 4], 7);
    assert_eq!(net.layers.len(), 3);
    assert_eq!(net.batch_size, 1);
    assert_eq!(net.epoch_amount, 100);
    assert_eq!(net.error_function.func, ErrorFunc::Simple);
    assert_eq!(net.layers[0].weights, vec![Vec::<F>::new(); 2]);
    assert_eq!(net.layers[1].weights.len(), 3);
    assert!(net.layers[1].weights.iter().all(|r| r.len() == 2));
    assert_eq!(net.layers[2].weights.len(), 4);
    assert!(net.layers[2].weights.iter().all(|r| r.len() == 3));
    for l in &net.layers {
        assert_eq!(l.activation.func, ActivationFunc::Sigmoid);
        assert!(l.basis.iter().all(|b| *b == F(1.0 / 1000.0)));
        assert!(l.old_grads.is_empty() && l.old_outputs.is_empty());
    }
}

#[test]
fn new_draws_within_glorot_bound() {
    let net = network(vec![2, 3, 4], 11);
    let b1 = 6.0f32.sqrt() / 5.0f32.sqrt();
    let b2 = 6.0f32.sqrt() / 7.0f32.sqrt();
    assert!(net.layers[1].weights.iter().flatten().all(|w| w.0.abs() <= b1));
    assert!(net.layers[2].weights.iter().flatten().all(|w| w.0.abs() <= b2));
    assert!(net.layers[1].weights.iter().flatten().any(|w| w.0 != 0.0));
}

#[test]
fn same_seed_builds_identical_networks() {
    let a = network(vec![3, 5, 2], 77);
    let b = network(vec![3, 5, 2], 77);
    let c = network(vec![3, 5, 2], 78);
    assert_eq!(all_weights(&a), all_weights(&b));
    assert_ne!(all_weights(&a), all_weights(&c));
}

#[test]
fn new_rejects_fewer_than_two_layers() {
    assert_eq!(
        NeuroNetwork::<F>::new(vec![3], &mut Lcg(1)).err(),
        Some(NeuroError::InvalidConfiguration)
    );
    assert_eq!(
        NeuroNetwork::<F>::new(vec![], &mut Lcg(1)).err(),
        Some(NeuroError::InvalidConfiguration)
    );
}

#[test]
fn new_rejects_empty_layer() {
    assert_eq!(
        NeuroNetwork::<F>::new(vec![2, 0, 1], &mut Lcg(1)).err(),
        Some(NeuroError::InvalidConfiguration)
    );
}

#[test]
fn builders_set_configuration() {
    let net = network(vec![2, 3, 2], 3)
        .with_activation(ActivationFunc::Relu)
        .with_last_activation(ActivationFunc::Softmax)
        .with_error(ErrorFunc::Simple)
        .with_epoch(7)
        .with_batch_size(5);
    assert_eq!(net.layers[0].activation.func, ActivationFunc::Relu);
    assert_eq!(net.layers[1].activation.func, ActivationFunc::Relu);
    assert_eq!(net.layers[2].activation.func, ActivationFunc::Softmax);
    assert_eq!(net.epoch_amount, 7);
    assert_eq!(net.batch_size, 5);
}

#[test]
fn same_seed_same_training_gives_identical_weights() {
    let mut a = network(vec![2, 6, 2], 42).with_epoch(50).with_batch_size(3);
    let mut b = network(vec![2, 6, 2], 42).with_epoch(50).with_batch_size(3);
    a.train(xor_samples(), F(0.1)).unwrap();
    b.train(xor_samples(), F(0.1)).unwrap();
    assert_eq!(all_weights(&a), all_weights(&b));
    assert_eq!(all_biases(&a), all_biases(&b));
}

fn fixed_network() -> NeuroNetwork<F> {
    let record = NeuroNetworkJson {
        layers: vec![
            NeuroLayerJson {
                basis: fv(&[0.001, 0.001]),
                weights: vec![vec![], vec![]],
                activation: "sigmoid".to_string(),
            },
            NeuroLayerJson {
                basis: fv(&[0.1, -0.2, 0.3]),
                weights: vec![fv(&[0.5, -0.4]), fv(&[0.3, 0.8]), fv(&[-0.7, 0.2])],
                activation: "sigmoid".to_string(),
            },
            NeuroLayerJson {
                basis: fv(&[0.05, -0.05]),
                weights: vec![fv(&[0.6, -0.1, 0.9]), fv(&[-0.3, 0.4, 0.2])],
                activation: "sigmoid".to_string(),
            },
        ],
        batch_size: 1,
        epoch_amount: 1,
        error_func: "simple".to_string(),
    };
    json_to_network(record).unwrap()
}

#[test]
fn solve_matches_direct_computation() {
    let mut net = fixed_network();
    let x = [0.7f32, -1.3];
    let w1 = [[0.5f32, -0.4], [0.3, 0.8], [-0.7, 0.2]];
    let b1 = [0.1f32, -0.2, 0.3];
    let w2 = [[0.6f32, -0.1, 0.9], [-0.3, 0.4, 0.2]];
    let b2 = [0.05f32, -0.05];
    let h: Vec<f32> = (0..3)
        .map(|i| sigmoid((0..2).fold(0.0, |s, j| s + x[j] * w1[i][j]) + b1[i]))
        .collect();
    let y: Vec<f32> = (0..2)
        .map(|i| sigmoid((0..3).fold(0.0, |s, j| s + h[j] * w2[i][j]) + b2[i]))
        .collect();
    let out = net.solve(fv(&x)).unwrap();
    assert_eq!(out.len(), 2);
    for i in 0..2 {
        assert!((out[i].0 - y[i]).abs() < 1e-6);
    }
    assert!(net.layers.iter().all(|l| l.old_grads.is_empty() && l.old_outputs.is_empty()));
}

#[test]
fn solve_leaves_parameters_unchanged() {
    let mut net = network(vec![3, 4, 2], 5);
    let before_w = all_weights(&net);
    let before_b = all_biases(&net);
    net.solve(fv(&[0.1, 0.2, 0.3])).unwrap();
    assert_eq!(all_weights(&net), before_w);
    assert_eq!(all_biases(&net), before_b);
}

#[test]
fn solve_rejects_wrong_input_length() {
    let mut net = network(vec![3, 4, 2], 5);
    assert_eq!(net.solve(fv(&[0.1, 0.2])), Err(NeuroError::DimensionMismatch));
}

#[test]
fn record_round_trip_reproduces_network() {
    let mut net = network(vec![2, 6, 2], 9)
        .with_last_activation(ActivationFunc::Softmax)
        .with_epoch(20)
        .with_batch_size(2);
    net.train(xor_samples(), F(0.1)).unwrap();
    let back = json_to_network(neural_to_json(&net)).unwrap();
    assert_eq!(all_weights(&back), all_weights(&net));
    assert_eq!(all_biases(&back), all_biases(&net));
    assert_eq!(back.batch_size, 2);
    assert_eq!(back.epoch_amount, 20);
    assert_eq!(back.error_function, net.error_function);
    for k in 0..net.layers.len() {
        assert_eq!(back.layers[k].activation, net.layers[k].activation);
    }
    let again = neural_to_json(&back);
    let first = neural_to_json(&net);
    assert_eq!(again.error_func, first.error_func);
    assert_eq!(again.layers[2].activation, "softmax");
}

#[test]
fn record_with_unknown_activation_is_rejected() {
    let mut record = neural_to_json(&network(vec![2, 3], 1));
    record.layers[1].activation = "gelu".to_string();
    assert_eq!(json_to_network(record).err(), Some(NeuroError::UnknownTag));
}

#[test]
fn record_with_unknown_error_function_is_rejected() {
    let mut record = neural_to_json(&network(vec![2, 3], 1));
    record.error_func = "cross".to_string();
    assert_eq!(json_to_network(record).err(), Some(NeuroError::UnknownTag));
}

#[test]
fn record_with_misshaped_weights_is_rejected() {
    let mut record = neural_to_json(&network(vec![2, 3], 1));
    record.layers[1].weights[2].push(F(0.5));
    assert_eq!(json_to_network(record).err(), Some(NeuroError::DimensionMismatch));
}

#[test]
fn record_with_zero_batch_size_is_rejected() {
    let mut record = neural_to_json(&network(vec![2, 3], 1));
    record.batch_size = 0;
    assert_eq!(json_to_network(record).err(), Some(NeuroError::InvalidConfiguration));
}

#[test]
fn record_with_zero_epochs_is_rejected() {
    let mut record = neural_to_json(&network(vec![2, 3], 1));
    record.epoch_amount = 0;
    assert_eq!(json_to_network(record).err(), Some(NeuroError::InvalidConfiguration));
}

#[test]
fn epoch_corrects_once_per_batch() {
    let mut samples = xor_samples();
    samples.push(sample(&[0.5, 0.5], &[1.0, 0.0]));
    let mut net = network(vec![2, 3, 2], 2).with_batch_size(2);
    assert_eq!(net.train_epoch(&samples, F(0.1)).1, 3);
    let mut net = network(vec![2, 3, 2], 2).with_batch_size(2);
    assert_eq!(net.train_epoch(&xor_samples(), F(0.1)).1, 2);
    let mut net = network(vec![2, 3, 2], 2).with_batch_size(10);
    assert_eq!(net.train_epoch(&xor_samples(), F(0.1)).1, 1);
    let mut net = network(vec![2, 3, 2], 2).with_batch_size(1);
    assert_eq!(net.train_epoch(&xor_samples(), F(0.1)).1, 4);
    let mut net = network(vec![2, 3, 2], 2).with_batch_size(3);
    assert_eq!(net.train_epoch(&Vec::new(), F(0.1)).1, 0);
}

#[test]
fn train_returns_one_figure_per_epoch() {
    let mut net = network(vec![2, 3, 2], 4).with_epoch(12).with_batch_size(3);
    let costs = net.train(xor_samples(), F(0.5)).unwrap();
    assert_eq!(costs.len(), 12);
    assert!(net.layers.iter().all(|l| l.old_grads.is_empty() && l.old_outputs.is_empty()));
}

#[test]
fn train_updates_every_trainable_layer() {
    let mut net = network(vec![2, 3, 2], 4).with_epoch(1);
    let before = all_weights(&net);
    net.train(xor_samples(), F(0.5)).unwrap();
    let after = all_weights(&net);
    assert_eq!(after[0], before[0]);
    assert_ne!(after[1], before[1]);
    assert_ne!(after[2], before[2]);
}

#[test]
fn train_rejects_zero_batch_size() {
    let mut net = network(vec![2, 3, 2], 4).with_batch_size(0);
    let before = all_weights(&net);
    assert_eq!(net.train(xor_samples(), F(0.1)), Err(NeuroError::InvalidConfiguration));
    assert_eq!(all_weights(&net), before);
}

#[test]
fn train_rejects_zero_epochs() {
    let mut net = network(vec![2, 3, 2], 4).with_epoch(0);
    assert_eq!(net.train(xor_samples(), F(0.1)), Err(NeuroError::InvalidConfiguration));
}

#[test]
fn train_rejects_mismatched_sample() {
    let mut net = network(vec![2, 3, 2], 4);
    let before = all_weights(&net);
    let mut samples = xor_samples();
    samples.push(sample(&[1.0, 0.0], &[1.0]));
    assert_eq!(net.train(samples, F(0.1)), Err(NeuroError::DimensionMismatch));
    assert_eq!(all_weights(&net), before);
    let mut samples = xor_samples();
    samples.push(sample(&[1.0], &[1.0, 0.0]));
    assert_eq!(net.train(samples, F(0.1)), Err(NeuroError::DimensionMismatch));
}

#[test]
fn single_step_matches_gradient_descent() {
    let mut net = fixed_network();
    let x = [1.0f32, 0.0];
    let t = [1.0f32, 0.0];
    let w1 = [[0.5f32, -0.4], [0.3, 0.8], [-0.7, 0.2]];
    let b1 = [0.1f32, -0.2, 0.3];
    let w2 = [[0.6f32, -0.1, 0.9], [-0.3, 0.4, 0.2]];
    let b2 = [0.05f32, -0.05];
    let lr = 0.5f32;
    let z1: Vec<f32> = (0..3).map(|i| (0..2).fold(0.0, |s, j| s + x[j] * w1[i][j]) + b1[i]).collect();
    let h: Vec<f32> = z1.iter().map(|z| sigmoid(*z)).collect();
    let z2: Vec<f32> = (0..2).map(|i| (0..3).fold(0.0, |s, j| s + h[j] * w2[i][j]) + b2[i]).collect();
    let y: Vec<f32> = z2.iter().map(|z| sigmoid(*z)).collect();
    let g2: Vec<f32> = (0..2).map(|i| (y[i] - t[i]) * (sigmoid(z2[i]) * (1.0 - sigmoid(z2[i])))).collect();
    let g1: Vec<f32> = (0..3)
        .map(|i| (0..2).fold(0.0, |s, j| s + g2[j] * w2[j][i]) * (sigmoid(z1[i]) * (1.0 - sigmoid(z1[i]))))
        .collect();
    net.train(vec![sample(&x, &t)], F(lr)).unwrap();
    for i in 0..2 {
        for j in 0..3 {
            let expected = w2[i][j] - lr * g2[i] * h[j] / 1.0;
            assert!((net.layers[2].weights[i][j].0 - expected).abs() < 1e-6);
        }
        assert!((net.layers[2].basis[i].0 - (b2[i] - lr * g2[i] / 1.0)).abs() < 1e-6);
    }
    for i in 0..3 {
        for j in 0..2 {
            let expected = w1[i][j] - lr * g1[i] * x[j] / 1.0;
            assert!((net.layers[1].weights[i][j].0 - expected).abs() < 1e-6);
        }
        assert!((net.layers[1].basis[i].0 - (b1[i] - lr * g1[i] / 1.0)).abs() < 1e-6);
    }
}

#[test]
fn xor_scenario_is_learned() {
    let mut net = network(vec![2, 6, 2], 2024)
        .with_activation(ActivationFunc::Sigmoid)
        .with_epoch(10000)
        .with_batch_size(1);
    net.train(xor_samples(), F(0.1)).unwrap();
    let a = raw(&net.solve(fv(&[1.0, 1.0])).unwrap());
    let b = raw(&net.solve(fv(&[1.0, 0.0])).unwrap());
    assert!(a[0] > a[1]);
    assert!(b[1] > b[0]);
}

#[test]
fn input_layer_correct_only_clears() {
    let mut layer: NeuroLayer<F> = NeuroLayer::new(3, 0, ActivationFunc::Sigmoid);
    layer.forward(Vec::new());
    layer.old_grads.push(fv(&[0.1, 0.2, 0.3]));
    let weights = layer.weights.clone();
    let basis = layer.basis.clone();
    layer.correct(Vec::new(), F(0.5));
    assert_eq!(layer.weights, weights);
    assert_eq!(layer.basis, basis);
    assert!(layer.old_grads.is_empty());
    assert!(layer.old_outputs.is_empty());
}

#[test]
fn layer_forward_records_output() {
    let mut layer: NeuroLayer<F> = NeuroLayer::new(2, 2, ActivationFunc::Relu);
    layer.weights = vec![fv(&[1.0, 2.0]), fv(&[-1.0, -1.0])];
    layer.basis = fv(&[0.5, 0.0]);
    let out = layer.forward(fv(&[1.0, 1.0]));
    assert_eq!(raw(&out), vec![3.5, 0.0]);
    assert_eq!(raw(&layer.input), vec![3.5, -2.0]);
    assert_eq!(layer.old_outputs.len(), 1);
    assert_eq!(raw(&layer.raw_input), vec![1.0, 1.0]);
}

#[test]
fn layer_backward_chains_gradient() {
    let mut layer: NeuroLayer<F> = NeuroLayer::new(2, 1, ActivationFunc::Relu);
    layer.input = fv(&[1.0, -1.0]);
    let next_weights = vec![fv(&[2.0, 3.0]), fv(&[4.0, 5.0])];
    let (g, w) = layer.backward(fv(&[1.0, 0.5]), next_weights);
    assert_eq!(raw(&g), vec![4.0, 0.0]);
    assert_eq!(w, layer.weights);
    assert_eq!(layer.old_grads.len(), 1);
}
