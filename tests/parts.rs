use neuro::activation::{
    relu, relu_df, sigmoid, sigmoid_df, softmax, softmax_df, tanh, tanh_df, Activation,
    ActivationFunc,
};
use neuro::error_func::{ErrorFunc, ErrorFunction};
use neuro::queens::QueenState;
use neuro::scalar::Scalar;
use std::str::FromStr;

#[derive(Debug, Clone, Copy, PartialEq)]
struct F(f32);

impl Scalar for F {
    fn spec_zero() -> F {
        F::zero()
    }
    fn spec_from_usize(n: usize) -> F {
        F::from_usize(n)
    }
    fn spec_plus(self, rhs: F) -> F {
        self.plus(rhs)
    }
    fn spec_minus(self, rhs: F) -> F {
        self.minus(rhs)
    }
    fn spec_times(self, rhs: F) -> F {
        self.times(rhs)
    }
    fn spec_divided_by(self, rhs: F) -> F {
        self.divided_by(rhs)
    }
    fn spec_negated(self) -> F {
        self.negated()
    }
    fn spec_exp(self) -> F {
        self.exp()
    }
    fn spec_tanh(self) -> F {
        self.tanh()
    }
    fn spec_sqrt(self) -> F {
        self.sqrt()
    }
    fn spec_is_positive(self) -> bool {
        self.is_positive()
    }
    fn spec_is_zero(self) -> bool {
        self.is_zero()
    }
    fn spec_total_max(self, rhs: F) -> F {
        self.total_max(rhs)
    }
    fn zero() -> F {
        F(0.0)
    }
    fn from_usize(n: usize) -> F {
        F(n as f32)
    }
    fn plus(self, rhs: F) -> F {
        F(self.0 + rhs.0)
    }
    fn minus(self, rhs: F) -> F {
        F(self.0 - rhs.0)
    }
    fn times(self, rhs: F) -> F {
        F(self.0 * rhs.0)
    }
    fn divided_by(self, rhs: F) -> F {
        F(self.0 / rhs.0)
    }
    fn negated(self) -> F {
        F(-self.0)
    }
    fn exp(self) -> F {
        F(self.0.exp())
    }
    fn tanh(self) -> F {
        F(self.0.tanh())
    }
    fn sqrt(self) -> F {
        F(self.0.sqrt())
    }
    fn is_positive(self) -> bool {
        self.0 > 0.0
    }
    fn is_zero(self) -> bool {
        self.0 == 0.0
    }
    fn total_max(self, rhs: F) -> F {
        if self.0.total_cmp(&rhs.0) == std::cmp::Ordering::Greater {
            self
        } else {
            rhs
        }
    }
}

/// A number type whose exponential always underflows to zero.
#[derive(Debug, Clone, Copy, PartialEq)]
struct Underflow(f32);

impl Scalar for Underflow {
    fn spec_zero() -> Underflow {
        Underflow::zero()
    }
    fn spec_from_usize(n: usize) -> Underflow {
        Underflow::from_usize(n)
    }
    fn spec_plus(self, rhs: Underflow) -> Underflow {
        self.plus(rhs)
    }
    fn spec_minus(self, rhs: Underflow) -> Underflow {
        self.minus(rhs)
    }
    fn spec_times(self, rhs: Underflow) -> Underflow {
        self.times(rhs)
    }
    fn spec_divided_by(self, rhs: Underflow) -> Underflow {
        self.divided_by(rhs)
    }
    fn spec_negated(self) -> Underflow {
        self.negated()
    }
    fn spec_exp(self) -> Underflow {
        self.exp()
    }
    fn spec_tanh(self) -> Underflow {
        self.tanh()
    }
    fn spec_sqrt(self) -> Underflow {
        self.sqrt()
    }
    fn spec_is_positive(self) -> bool {
        self.is_positive()
    }
    fn spec_is_zero(self) -> bool {
        self.is_zero()
    }
    fn spec_total_max(self, rhs: Underflow) -> Underflow {
        self.total_max(rhs)
    }
    fn zero() -> Underflow {
        Underflow(0.0)
    }
    fn from_usize(n: usize) -> Underflow {
        Underflow(n as f32)
    }
    fn plus(self, rhs: Underflow) -> Underflow {
        Underflow(self.0 + rhs.0)
    }
    fn minus(self, rhs: Underflow) -> Underflow {
        Underflow(self.0 - rhs.0)
    }
    fn times(self, rhs: Underflow) -> Underflow {
        Underflow(self.0 * rhs.0)
    }
    fn divided_by(self, rhs: Underflow) -> Underflow {
        Underflow(self.0 / rhs.0)
    }
    fn negated(self) -> Underflow {
        Underflow(-self.0)
    }
    fn exp(self) -> Underflow {
        Underflow(0.0)
    }
    fn tanh(self) -> Underflow {
        Underflow(self.0.tanh())
    }
    fn sqrt(self) -> Underflow {
        Underflow(self.0.sqrt())
    }
    fn is_positive(self) -> bool {
        self.0 > 0.0
    }
    fn is_zero(self) -> bool {
        self.0 == 0.0
    }
    fn total_max(self, rhs: Underflow) -> Underflow {
        if self.0.total_cmp(&rhs.0) == std::cmp::Ordering::Greater {
            self
        } else {
            rhs
        }
    }
}

fn fv(v: &[f32]) -> Vec<F> {
    v.iter().map(|x| F(*x)).collect()
}

fn raw(v: &[F]) -> Vec<f32> {
    v.iter().map(|x| x.0).collect()
}

fn close(a: &[f32], b: &[f32]) -> bool {
    a.len() == b.len() && a.iter().zip(b).all(|(x, y)| (x - y).abs() < 1e-6)
}

#[test]
fn sigmoid_values() {
    assert!(close(&raw(&sigmoid(fv(&[0.0, 2.0]))), &[0.5, 1.0 / (1.0 + (-2.0f32).exp())]));
    assert!(close(&raw(&sigmoid_df(fv(&[0.0]))), &[0.25]));
}

#[test]
fn tanh_values() {
    assert!(close(&raw(&tanh(fv(&[0.0, 1.0]))), &[0.0, 1.0f32.tanh()]));
    let t = 0.5f32.tanh();
    assert!(close(&raw(&tanh_df(fv(&[0.0, 0.5]))), &[1.0, 1.0 - t * t]));
}

#[test]
fn relu_values() {
    assert_eq!(raw(&relu(fv(&[-1.0, 0.0, 2.5]))), vec![0.0, 0.0, 2.5]);
    assert_eq!(raw(&relu_df(fv(&[-1.0, 0.0, 2.5]))), vec![0.0, 0.0, 1.0]);
}

#[test]
fn softmax_values() {
    assert!(close(&raw(&softmax(fv(&[1.0, 1.0]))), &[0.5, 0.5]));
    let e = 1.0f32.exp();
    assert!(close(&raw(&softmax(fv(&[0.0, 1.0]))), &[1.0 / (1.0 + e), e / (1.0 + e)]));
    assert!(close(&raw(&softmax_df(fv(&[3.0, 3.0]))), &[0.25, 0.25]));
}

#[test]
fn softmax_sums_to_one() {
    for v in [vec![1.0, 2.0, 3.0], vec![-50.0, 0.0, 50.0, 7.5], vec![1000.0, 999.0], vec![4.0]] {
        let s: f32 = raw(&softmax(fv(&v))).iter().sum();
        assert!((s - 1.0).abs() < 1e-5);
    }
}

#[test]
fn softmax_with_zero_sum_is_all_zero() {
    let r = softmax(vec![Underflow(1.0), Underflow(2.0), Underflow(3.0)]);
    assert_eq!(r, vec![Underflow(0.0); 3]);
}

#[test]
fn activation_dispatches_on_tag() {
    let v = fv(&[-1.0, 2.0]);
    assert_eq!(Activation::new(ActivationFunc::Relu).f(v.clone()), relu(v.clone()));
    assert_eq!(Activation::new(ActivationFunc::Relu).df(v.clone()), relu_df(v.clone()));
    assert_eq!(ActivationFunc::Sigmoid.f(v.clone()), sigmoid(v.clone()));
    assert_eq!(ActivationFunc::Tanh.df(v.clone()), tanh_df(v.clone()));
    assert_eq!(ActivationFunc::Softmax.f(v.clone()), softmax(v.clone()));
    assert_eq!(Activation::new(ActivationFunc::Softmax).name(), "softmax");
}

#[test]
fn activation_names() {
    assert_eq!(ActivationFunc::Sigmoid.get_name(), "sigmoid");
    assert_eq!(ActivationFunc::Tanh.get_name(), "tanh");
    assert_eq!(ActivationFunc::Softmax.get_name(), "softmax");
    assert_eq!(ActivationFunc::Relu.get_name(), "relu");
}

#[test]
fn activation_tags_read_back() {
    for a in [ActivationFunc::Sigmoid, ActivationFunc::Tanh, ActivationFunc::Softmax, ActivationFunc::Relu] {
        assert_eq!(ActivationFunc::from_name(&a.get_name()), Some(a));
        assert_eq!(ActivationFunc::from_str(&a.get_name()), Ok(a));
    }
    assert_eq!(ActivationFunc::from_name("Sigmoid"), None);
    assert_eq!(ActivationFunc::from_str("linear"), Err(()));
}

#[test]
fn error_function_values() {
    assert_eq!(ErrorFunc::Simple.f(F(3.0), F(1.0)), F(2.0));
    assert_eq!(ErrorFunc::Simple.df(F(3.0), F(1.0)), F(2.0));
    assert_eq!(ErrorFunction::new(ErrorFunc::Simple).f(F(0.5), F(1.5)), F(0.5));
    assert_eq!(ErrorFunction::new(ErrorFunc::Simple).df(F(0.5), F(1.5)), F(-1.0));
}

#[test]
fn error_function_tags() {
    assert_eq!(ErrorFunc::Simple.get_name(), "simple");
    assert_eq!(ErrorFunction::new(ErrorFunc::Simple).name(), "simple");
    assert_eq!(ErrorFunc::from_name("simple"), Some(ErrorFunc::Simple));
    assert_eq!(ErrorFunc::from_str("simple"), Ok(ErrorFunc::Simple));
    assert_eq!(ErrorFunc::from_name("mse"), None);
}

#[test]
fn queens_setup_places_diagonal() {
    let mut q = QueenState::new(5);
    assert!(q.positions.is_empty());
    assert_eq!(q.n, 5);
    q.setup();
    assert_eq!(q.positions, vec![0, 1, 2, 3, 4]);
    assert_eq!(q.energy(), 4);
}

#[test]
fn queens_energy_counts_attacking_rows() {
    let q = QueenState { positions: vec![1, 3, 0, 2], n: 4 };
    assert_eq!(q.energy(), 0);
    let q = QueenState { positions: vec![0, 2, 1, 3], n: 4 };
    assert_eq!(q.energy(), 2);
    let q = QueenState { positions: vec![3, 2, 1, 0], n: 4 };
    assert_eq!(q.energy(), 3);
    assert_eq!(QueenState::new(0).energy(), 0);
}

#[test]
fn queens_swapped_exchanges_rows() {
    let q = QueenState { positions: vec![0, 1, 2, 3], n: 4 };
    assert_eq!(q.swapped(0, 3).positions, vec![3, 1, 2, 0]);
    assert_eq!(q.swapped(2, 2).positions, vec![0, 1, 2, 3]);
}

#[test]
fn queens_changed_state_swaps_two_rows() {
    let mut q = QueenState::new(8);
    q.setup();
    let mut moved = false;
    for _ in 0..100 {
        let c = q.changed_state();
        let mut sorted = c.positions.clone();
        sorted.sort();
        assert_eq!(sorted, q.positions);
        let differ = c.positions.iter().zip(&q.positions).filter(|(a, b)| a != b).count();
        assert!(differ == 0 || differ == 2);
        moved |= differ == 2;
    }
    assert!(moved);
}
