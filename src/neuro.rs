use vstd::prelude::*;
use crate::activation::{Activation, ActivationFunc};
use crate::error_func::{error_derivative, ErrorFunc, ErrorFunction};
use crate::activation::{activation_df_of, activation_of};
use crate::scalar::{copy_matrix, copy_vec, dot, filled, one, rows, spec_one, Scalar, WeightSource};

verus! {

/// What a failed operation reports; the network is left unchanged.
#[derive(Debug, Clone, Copy, PartialEq, Eq, Structural)]
pub enum NeuroError {
    /// A sample or an input has a length other than the layer it meets.
    DimensionMismatch,
    /// Fewer than two layers, an empty layer, a zero batch size or a zero epoch count.
    InvalidConfiguration,
    /// A persisted tag outside the activation or error vocabulary.
    UnknownTag,
}

/// The classes the image-recognition front end labels its outputs with.
#[derive(Debug, Clone, Copy, PartialEq, Eq, Structural)]
pub enum Solution {
    Car,
    Heli,
    Sheep,
    Airplane,
}

/// The number of hidden layers a front end offers to build.
#[derive(Debug, Clone, Copy, PartialEq, Eq, Structural)]
pub enum NeuroLayers {
    Zero,
    One,
    Two,
}

/// One training example: an input vector and the output it should produce.
#[derive(Debug, Clone)]
pub struct Sample<S> {
    pub data: Vec<S>,
    pub solution: Vec<S>,
}

/// One stage of the network.
///
/// `weights` holds one row per neuron, each with one entry per neuron of the
/// previous layer (no entries for the input layer). `input` is the
/// pre-activation of the last forward pass, `output` its activation, `grad`
/// the gradient of the last backward pass. `old_outputs` and `old_grads`
/// hold one entry per sample seen since the last correction.
#[derive(Debug)]
pub struct NeuroLayer<S> {
    pub raw_input: Vec<S>,
    pub input: Vec<S>,
    pub output: Vec<S>,
    pub basis: Vec<S>,
    pub weights: Vec<Vec<S>>,
    pub grad: Vec<S>,
    pub old_grads: Vec<Vec<S>>,
    pub old_outputs: Vec<Vec<S>>,
    pub activation: Activation,
}

/// Every vector of the sequence has length `n`.
pub open spec fn all_len<S>(m: Seq<Vec<S>>, n: nat) -> bool {
    forall|k: int| 0 <= k < m.len() ==> (#[trigger] m[k])@.len() == n
}

impl<S> NeuroLayer<S> {
    /// The number of neurons.
    pub open spec fn size(&self) -> nat {
        self.basis@.len()
    }

    /// The layer has a positive number of neurons, one weight row per neuron,
    /// and every per-neuron vector and history entry has one value per neuron.
    pub open spec fn consistent(&self) -> bool {
        &&& self.size() > 0
        &&& self.weights@.len() == self.size()
        &&& self.input@.len() == self.size()
        &&& self.output@.len() == self.size()
        &&& self.grad@.len() == self.size()
        &&& all_len(self.old_grads@, self.size())
        &&& all_len(self.old_outputs@, self.size())
    }

    /// The layer is consistent and has `links` weights per neuron.
    pub open spec fn shaped(&self, links: nat) -> bool {
        &&& self.consistent()
        &&& all_len(self.weights@, links)
    }

    /// No sample has been recorded since the last correction.
    pub open spec fn idle(&self) -> bool {
        &&& self.old_grads@.len() == 0
        &&& self.old_outputs@.len() == 0
    }

    /// Everything but the weights, the biases and the histories is as in `other`.
    pub open spec fn keeps_state(&self, other: &NeuroLayer<S>) -> bool {
        &&& self.raw_input == other.raw_input
        &&& self.input == other.input
        &&& self.output == other.output
        &&& self.grad == other.grad
        &&& self.activation == other.activation
    }

    /// The two layers hold the same weights, biases and activation.
    pub open spec fn same_params(&self, other: &NeuroLayer<S>) -> bool {
        &&& rows(self.weights@) == rows(other.weights@)
        &&& self.basis@ == other.basis@
        &&& self.activation == other.activation
    }
}

impl<S: Scalar> NeuroLayer<S> {
    /// A layer of `neurons_amount` neurons with `back_links_amount` zero weights
    /// each, biases at 0.001 and no recorded samples.
    pub fn new(neurons_amount: usize, back_links_amount: usize, activation: ActivationFunc) -> (r:
        NeuroLayer<S>)
        requires
            neurons_amount > 0,
        ensures
            r.shaped(back_links_amount as nat),
            r.idle(),
            r.size() == neurons_amount,
            r.activation.func == activation,
            r.basis@ == Seq::new(neurons_amount as nat, |i: int| initial_bias::<S>()),
            rows(r.weights@) == Seq::new(
                neurons_amount as nat,
                |r: int| Seq::new(back_links_amount as nat, |j: int| S::spec_zero()),
            ),
    {
        let zero = S::zero();
        let bias = one::<S>().divided_by(S::from_usize(1000));
        let mut weights: Vec<Vec<S>> = Vec::with_capacity(neurons_amount);
        let mut i: usize = 0;
        while i < neurons_amount
            invariant
                i <= neurons_amount,
                weights@.len() == i,
                all_len(weights@, back_links_amount as nat),
                zero == S::spec_zero(),
                rows(weights@) == Seq::new(
                    i as nat,
                    |r: int| Seq::new(back_links_amount as nat, |j: int| S::spec_zero()),
                ),
            decreases neurons_amount - i,
        {
            let row = filled(back_links_amount, zero);
            assert(row@ =~= Seq::new(back_links_amount as nat, |j: int| S::spec_zero()));
            let ghost before = weights@;
            weights.push(row);
            i += 1;
            assert forall|r: int| 0 <= r < i implies rows(weights@)[r] == Seq::new(
                back_links_amount as nat,
                |j: int| S::spec_zero(),
            ) by {
                if r < i - 1 {
                    assert(weights@[r] == before[r]);
                    assert(rows(before)[r] == before[r]@);
                }
            }
            assert(rows(weights@) =~= Seq::new(
                i as nat,
                |r: int| Seq::new(back_links_amount as nat, |j: int| S::spec_zero()),
            ));
        }
        NeuroLayer {
            raw_input: filled(neurons_amount, zero),
            input: filled(neurons_amount, zero),
            output: filled(neurons_amount, zero),
            basis: filled(neurons_amount, bias),
            weights,
            grad: filled(neurons_amount, zero),
            old_grads: Vec::new(),
            old_outputs: Vec::new(),
            activation: Activation::new(activation),
        }
    }

    /// Computes `activation(weights · input + basis)`, stores the input, the
    /// pre-activation and the output, records the output in `old_outputs`
    /// and returns it.
    pub fn forward(&mut self, input: Vec<S>) -> (r: Vec<S>)
        requires
            old(self).shaped(input@.len() as nat),
        ensures
            final(self).shaped(input@.len() as nat),
            r@.len() == final(self).size(),
            r@ == final(self).output@,
            final(self).raw_input@ == input@,
            final(self).input@ == pre_activation(rows(old(self).weights@), old(self).basis@, input@),
            r@ == activation_of(old(self).activation.func, final(self).input@),
            rows(final(self).old_outputs@) == rows(old(self).old_outputs@).push(r@),
            final(self).old_grads == old(self).old_grads,
            final(self).grad == old(self).grad,
            final(self).weights == old(self).weights,
            final(self).basis == old(self).basis,
            final(self).activation == old(self).activation,
    {
        let n = self.basis.len();
        let m = input.len();
        let mut pre: Vec<S> = Vec::with_capacity(n);
        let mut i: usize = 0;
        while i < n
            invariant
                i <= n,
                n == self.size(),
                m == input@.len(),
                self.shaped(m as nat),
                pre@ == Seq::new(
                    i as nat,
                    |k: int| dot(self.weights@[k]@, input@, m as int).spec_plus(self.basis@[k]),
                ),
            decreases n - i,
        {
            let row = &self.weights[i];
            let mut sum = S::zero();
            let mut j: usize = 0;
            while j < m
                invariant
                    j <= m,
                    m == input@.len(),
                    row@.len() == m,
                    sum == dot(row@, input@, j as int),
                decreases m - j,
            {
                sum = sum.plus(input[j].times(row[j]));
                j += 1;
            }
            pre.push(sum.plus(self.basis[i]));
            i += 1;
            assert(pre@ =~= Seq::new(
                i as nat,
                |k: int| dot(self.weights@[k]@, input@, m as int).spec_plus(self.basis@[k]),
            ));
        }
        assert(pre@ =~= pre_activation(rows(self.weights@), self.basis@, input@));
        let out = self.activation.f(copy_vec(&pre));
        let ghost prev = self.old_outputs@;
        self.raw_input = input;
        self.input = pre;
        self.output = copy_vec(&out);
        self.old_outputs.push(copy_vec(&out));
        assert(rows(self.old_outputs@) =~= rows(prev).push(out@));
        out
    }

    /// Computes this layer's gradient from the next layer's gradient and
    /// weights, `grad[i] = (Σ_j next_grad[j] · next_weights[j][i]) · df(input)[i]`,
    /// records it in `old_grads` and returns it with a copy of this layer's
    /// weights, for the layer before.
    pub fn backward(&mut self, grad: Vec<S>, weights: Vec<Vec<S>>) -> (r: (Vec<S>, Vec<Vec<S>>))
        requires
            old(self).consistent(),
            weights@.len() == grad@.len(),
            all_len(weights@, old(self).size()),
        ensures
            final(self).consistent(),
            r.0@ == final(self).grad@,
            r.0@.len() == final(self).size(),
            r.0@ == layer_gradient(
                grad@,
                rows(weights@),
                activation_df_of(old(self).activation.func, old(self).input@),
            ),
            rows(r.1@) == rows(old(self).weights@),
            rows(final(self).old_grads@) == rows(old(self).old_grads@).push(r.0@),
            final(self).old_outputs == old(self).old_outputs,
            final(self).raw_input == old(self).raw_input,
            final(self).input == old(self).input,
            final(self).output == old(self).output,
            final(self).weights == old(self).weights,
            final(self).basis == old(self).basis,
            final(self).activation == old(self).activation,
    {
        let n = self.basis.len();
        let mut g: Vec<S> = Vec::with_capacity(n);
        let mut i: usize = 0;
        while i < n
            invariant
                i <= n,
                n == self.size(),
                weights@.len() == grad@.len(),
                all_len(weights@, n as nat),
                g@ == Seq::new(
                    i as nat,
                    |k: int| back_sum(grad@, rows(weights@), k, grad@.len() as int),
                ),
            decreases n - i,
        {
            let mut sum = S::zero();
            let mut j: usize = 0;
            while j < weights.len()
                invariant
                    j <= weights@.len(),
                    i < n,
                    weights@.len() == grad@.len(),
                    all_len(weights@, n as nat),
                    sum == back_sum(grad@, rows(weights@), i as int, j as int),
                decreases weights@.len() - j,
            {
                sum = sum.plus(grad[j].times(weights[j][i]));
                j += 1;
            }
            g.push(sum);
            i += 1;
            assert(g@ =~= Seq::new(
                i as nat,
                |k: int| back_sum(grad@, rows(weights@), k, grad@.len() as int),
            ));
        }
        let df = self.activation.df(copy_vec(&self.input));
        let mut out: Vec<S> = Vec::with_capacity(n);
        let mut i: usize = 0;
        while i < n
            invariant
                i <= n,
                g@.len() == n,
                df@.len() == n,
                out@ == Seq::new(i as nat, |k: int| g@[k].spec_times(df@[k])),
            decreases n - i,
        {
            out.push(g[i].times(df[i]));
            i += 1;
            assert(out@ =~= Seq::new(i as nat, |k: int| g@[k].spec_times(df@[k])));
        }
        assert(out@ =~= layer_gradient(grad@, rows(weights@), df@));
        let ghost prev = self.old_grads@;
        self.grad = copy_vec(&out);
        self.old_grads.push(copy_vec(&out));
        assert(rows(self.old_grads@) =~= rows(prev).push(out@));
        (out, copy_matrix(&self.weights))
    }
}

/// The bias every neuron starts with: `1 / 1000`.
pub open spec fn initial_bias<S: Scalar>() -> S {
    spec_one::<S>().spec_divided_by(S::spec_from_usize(1000))
}

/// `weights · x + basis`: for each neuron, the dot product of its weight
/// row with `x`, plus its bias.
pub open spec fn pre_activation<S: Scalar>(weights: Seq<Seq<S>>, basis: Seq<S>, x: Seq<S>) -> Seq<S> {
    Seq::new(basis.len(), |i: int| dot(weights[i], x, x.len() as int).spec_plus(basis[i]))
}

/// A layer's parameters: its weight rows, its biases and its activation.
pub type LayerParams<S> = (Seq<Seq<S>>, Seq<S>, ActivationFunc);

/// The parameters of a layer.
pub open spec fn params_of<S>(l: NeuroLayer<S>) -> LayerParams<S> {
    (rows(l.weights@), l.basis@, l.activation.func)
}

/// The pre-activation of layer `k` (at least 1) when the layers run on `x`.
pub open spec fn pre_out<S: Scalar>(m: Seq<LayerParams<S>>, x: Seq<S>, k: int) -> Seq<S>
    decreases k, 0int,
{
    if k <= 0 {
        x
    } else {
        pre_activation(m[k].0, m[k].1, layer_output(m, x, k - 1))
    }
}

/// The output of layer `k` when the layers run on `x`: the input layer
/// passes `x` through, each later layer applies its activation to
/// `weights · (output of the layer before) + basis`.
pub open spec fn layer_output<S: Scalar>(m: Seq<LayerParams<S>>, x: Seq<S>, k: int) -> Seq<S>
    decreases k, 1int,
{
    if k <= 0 {
        x
    } else {
        activation_of(m[k].2, pre_out(m, x, k))
    }
}

/// The gradient of layer `k` (at least 1) for the sample `x` with target
/// `t`: at the output layer, `error.df(output[i], t[i]) · df(pre)[i]`;
/// below it, the layer gradient from the gradient and weights of the layer
/// after it.
pub open spec fn layer_grad<S: Scalar>(
    m: Seq<LayerParams<S>>,
    e: ErrorFunc,
    x: Seq<S>,
    t: Seq<S>,
    k: int,
) -> Seq<S>
    decreases m.len() - k,
{
    let last = m.len() - 1;
    if k >= last {
        let out = layer_output(m, x, last);
        let df = activation_df_of(m[last].2, pre_out(m, x, last));
        Seq::new(m[last].1.len(), |i: int| error_derivative(e, out[i], t[i]).spec_times(df[i]))
    } else {
        layer_gradient(
            layer_grad(m, e, x, t, k + 1),
            m[k + 1].0,
            activation_df_of(m[k].2, pre_out(m, x, k)),
        )
    }
}

/// `Σ_{j < n} grad[j] · weights[j][i]`, from the first term on, starting at zero.
pub open spec fn back_sum<S: Scalar>(grad: Seq<S>, weights: Seq<Seq<S>>, i: int, n: int) -> S
    decreases n,
{
    if n <= 0 {
        S::spec_zero()
    } else {
        back_sum(grad, weights, i, n - 1).spec_plus(grad[n - 1].spec_times(weights[n - 1][i]))
    }
}

/// A layer's gradient from the next layer's gradient and weights and the
/// layer's activation derivative `df`.
pub open spec fn layer_gradient<S: Scalar>(grad: Seq<S>, weights: Seq<Seq<S>>, df: Seq<S>) -> Seq<S> {
    Seq::new(df.len(), |i: int| back_sum(grad, weights, i, grad.len() as int).spec_times(df[i]))
}

/// The weight `w` (row `i`, column `j`) after the first `k` steps of a
/// correction: step `k` subtracts `rate · grads[k][i] · prevs[k][j] / c`,
/// with `c` the number of recorded gradients.
pub open spec fn corrected_weight<S: Scalar>(
    w: S,
    rate: S,
    grads: Seq<Seq<S>>,
    prevs: Seq<Seq<S>>,
    i: int,
    j: int,
    k: int,
) -> S
    decreases k,
{
    if k <= 0 {
        w
    } else {
        corrected_weight(w, rate, grads, prevs, i, j, k - 1).spec_minus(
            rate.spec_times(grads[k - 1][i]).spec_times(prevs[k - 1][j]).spec_divided_by(
                S::spec_from_usize(grads.len() as usize),
            ),
        )
    }
}

/// The bias `b` of neuron `i` after the first `k` steps of a correction:
/// step `k` subtracts `rate · grads[k][i] / c`, with `c` the number of
/// recorded gradients.
pub open spec fn corrected_bias<S: Scalar>(b: S, rate: S, grads: Seq<Seq<S>>, i: int, k: int) -> S
    decreases k,
{
    if k <= 0 {
        b
    } else {
        corrected_bias(b, rate, grads, i, k - 1).spec_minus(
            rate.spec_times(grads[k - 1][i]).spec_divided_by(S::spec_from_usize(grads.len() as usize)),
        )
    }
}

impl<S: Scalar> NeuroLayer<S> {
    /// Row `r` holds `orig`'s row after `k` correction steps.
    pub open spec fn weights_step(
        &self,
        orig: &NeuroLayer<S>,
        prevs: Seq<Seq<S>>,
        rate: S,
        r: int,
        k: int,
    ) -> bool {
        &&& self.weights@[r]@.len() == orig.weights@[r]@.len()
        &&& forall|t: int|
            0 <= t < self.weights@[r]@.len() ==> (#[trigger] self.weights@[r]@[t]) == corrected_weight(
                orig.weights@[r]@[t],
                rate,
                rows(orig.old_grads@),
                prevs,
                r,
                t,
                k,
            )
    }

    /// Weights and biases are `orig`'s after the first `k` correction steps.
    pub open spec fn corrected_from(
        &self,
        orig: &NeuroLayer<S>,
        prevs: Seq<Seq<S>>,
        rate: S,
        k: int,
    ) -> bool {
        &&& self.weights@.len() == orig.weights@.len()
        &&& self.basis@.len() == orig.basis@.len()
        &&& forall|r: int| #![trigger self.weights@[r]]
            0 <= r < orig.weights@.len() ==> self.weights_step(orig, prevs, rate, r, k)
        &&& forall|r: int| #![trigger self.basis@[r]]
            0 <= r < orig.basis@.len() ==> self.basis@[r] == corrected_bias(
                orig.basis@[r],
                rate,
                rows(orig.old_grads@),
                r,
                k,
            )
    }

    /// A correction of `orig` is under way: the histories and the other
    /// per-sample state are untouched, and the shapes are kept.
    pub open spec fn updating(&self, orig: &NeuroLayer<S>, prevs: Seq<Vec<S>>) -> bool {
        &&& self.old_grads == orig.old_grads
        &&& self.old_outputs == orig.old_outputs
        &&& self.keeps_state(orig)
        &&& self.weights@.len() == orig.size()
        &&& self.basis@.len() == orig.size()
        &&& forall|r: int|
            0 <= r < orig.size() ==> (#[trigger] self.weights@[r])@.len() == orig.weights@[r]@.len()
        &&& forall|k: int, r: int|
            0 <= k < prevs.len() && 0 <= r < orig.size() ==> (#[trigger] prevs[k])@.len()
                == (#[trigger] orig.weights@[r])@.len()
    }

    /// Applies one averaged gradient-descent step for the recorded samples,
    /// then clears both histories. For each recorded sample `k`, in order,
    /// with `c` the number of recorded gradients:
    /// `weights[i][j] -= rate · old_grads[k][i] · prev_outputs[k][j] / c` and
    /// `basis[i] -= rate · old_grads[k][i] / c`.
    /// An empty `prev_outputs` (the input layer has no parameters) only clears.
    pub fn correct(&mut self, prev_outputs: Vec<Vec<S>>, learning_rate: S)
        requires
            old(self).consistent(),
            prev_outputs@.len() == 0 || (prev_outputs@.len() >= old(self).old_grads@.len() && forall|
                k: int,
                i: int,
            |
                0 <= k < prev_outputs@.len() && 0 <= i < old(self).size() ==> (#[trigger] prev_outputs@[k])@.len()
                    == (#[trigger] old(self).weights@[i])@.len()),
        ensures
            final(self).consistent(),
            final(self).idle(),
            final(self).size() == old(self).size(),
            final(self).keeps_state(old(self)),
            forall|i: int|
                0 <= i < old(self).size() ==> (#[trigger] final(self).weights@[i])@.len()
                    == old(self).weights@[i]@.len(),
            prev_outputs@.len() == 0 ==> final(self).weights == old(self).weights
                && final(self).basis == old(self).basis,
            prev_outputs@.len() > 0 ==> final(self).corrected_from(
                old(self),
                rows(prev_outputs@),
                learning_rate,
                old(self).old_grads@.len() as int,
            ),
    {
        if prev_outputs.len() == 0 {
            self.clear();
            return;
        }
        let n = self.basis.len();
        let count = self.old_grads.len();
        let divisor = S::from_usize(count);
        let mut k: usize = 0;
        while k < count
            invariant
                k <= count,
                count == old(self).old_grads@.len(),
                n == old(self).size(),
                count <= prev_outputs@.len(),
                old(self).consistent(),
                self.updating(old(self), prev_outputs@),
                divisor == S::spec_from_usize(count),
                self.corrected_from(old(self), rows(prev_outputs@), learning_rate, k as int),
            decreases count - k,
        {
            let mut i: usize = 0;
            while i < n
                invariant
                    i <= n,
                    k < count,
                    count == old(self).old_grads@.len(),
                    n == old(self).size(),
                    count <= prev_outputs@.len(),
                    old(self).consistent(),
                    self.updating(old(self), prev_outputs@),
                    divisor == S::spec_from_usize(count),
                    forall|r: int| #![trigger self.weights@[r]]
                        0 <= r < i ==> self.weights_step(old(self), rows(prev_outputs@), learning_rate, r, k + 1),
                    forall|r: int| #![trigger self.weights@[r]]
                        i <= r < n ==> self.weights_step(old(self), rows(prev_outputs@), learning_rate, r, k as int),
                    forall|r: int| #![trigger self.basis@[r]]
                        0 <= r < n ==> self.basis@[r] == corrected_bias(old(self).basis@[r], learning_rate, rows(old(self).old_grads@), r, k as int),
                decreases n - i,
            {
                let g = self.old_grads[k][i];
                let p = &prev_outputs[k];
                let old_row = &self.weights[i];
                let m = old_row.len();
                assert(p@.len() == m) by {
                    assert(prev_outputs@[k as int]@.len() == old(self).weights@[i as int]@.len());
                }
                assert(rows(old(self).old_grads@)[k as int] == old(self).old_grads@[k as int]@);
                assert(rows(prev_outputs@)[k as int] == prev_outputs@[k as int]@);
                assert(rows(old(self).old_grads@).len() == count);
                let mut row: Vec<S> = Vec::with_capacity(m);
                let mut j: usize = 0;
                while j < m
                    invariant
                        j <= m,
                        m == old_row@.len(),
                        m == p@.len(),
                        p == prev_outputs@[k as int],
                        k < count,
                        count == old(self).old_grads@.len(),
                        g == rows(old(self).old_grads@)[k as int][i as int],
                        p@ == rows(prev_outputs@)[k as int],
                        rows(old(self).old_grads@).len() == count,
                        divisor == S::spec_from_usize(count),
                        forall|t: int| 0 <= t < m ==> (#[trigger] old_row@[t]) == corrected_weight(
                            old(self).weights@[i as int]@[t], learning_rate, rows(old(self).old_grads@),
                            rows(prev_outputs@), i as int, t, k as int),
                        row@.len() == j,
                        forall|t: int| 0 <= t < j ==> (#[trigger] row@[t]) == corrected_weight(
                            old(self).weights@[i as int]@[t], learning_rate, rows(old(self).old_grads@),
                            rows(prev_outputs@), i as int, t, k + 1),
                    decreases m - j,
                {
                    row.push(old_row[j].minus(learning_rate.times(g).times(p[j]).divided_by(divisor)));
                    j += 1;
                }
                self.weights.set(i, row);
                i += 1;
            }
            let mut i: usize = 0;
            while i < n
                invariant
                    i <= n,
                    k < count,
                    count == old(self).old_grads@.len(),
                    n == old(self).size(),
                    count <= prev_outputs@.len(),
                    old(self).consistent(),
                    self.updating(old(self), prev_outputs@),
                    divisor == S::spec_from_usize(count),
                    forall|r: int| #![trigger self.weights@[r]]
                        0 <= r < n ==> self.weights_step(old(self), rows(prev_outputs@), learning_rate, r, k + 1),
                    forall|r: int| #![trigger self.basis@[r]]
                        0 <= r < i ==> self.basis@[r] == corrected_bias(old(self).basis@[r], learning_rate, rows(old(self).old_grads@), r, k + 1),
                    forall|r: int| #![trigger self.basis@[r]]
                        i <= r < n ==> self.basis@[r] == corrected_bias(old(self).basis@[r], learning_rate, rows(old(self).old_grads@), r, k as int),
                decreases n - i,
            {
                assert(self.old_grads@[k as int]@.len() == n);
                let b = self.basis[i].minus(learning_rate.times(self.old_grads[k][i]).divided_by(divisor));
                self.basis.set(i, b);
                i += 1;
            }
            k += 1;
        }
        self.clear();
    }

    /// Drops the recorded histories.
    pub fn clear(&mut self)
        ensures
            final(self).idle(),
            final(self).raw_input == old(self).raw_input,
            final(self).input == old(self).input,
            final(self).output == old(self).output,
            final(self).grad == old(self).grad,
            final(self).weights == old(self).weights,
            final(self).basis == old(self).basis,
            final(self).activation == old(self).activation,
    {
        self.old_grads.clear();
        self.old_outputs.clear();
    }
}

/// A feedforward network: an input layer that passes its input through,
/// followed by trainable layers, with the batch size and epoch count that
/// `train` uses and the error function that seeds the output gradient.
#[derive(Debug)]
pub struct NeuroNetwork<S> {
    pub layers: Vec<NeuroLayer<S>>,
    pub batch_size: usize,
    pub epoch_amount: usize,
    pub error_function: ErrorFunction,
}

/// The layer with its activation replaced.
pub open spec fn layer_with_activation<S>(l: NeuroLayer<S>, a: ActivationFunc) -> NeuroLayer<S> {
    NeuroLayer { activation: Activation { func: a }, ..l }
}

impl<S> NeuroNetwork<S> {
    /// The number of weights per neuron of layer `k`: none for the input
    /// layer, one per neuron of the previous layer otherwise.
    pub open spec fn links(&self, k: int) -> nat {
        if k == 0 {
            0
        } else {
            self.layers@[k - 1].size()
        }
    }

    /// At least two layers, each consistent with the one before it.
    pub open spec fn shaped(&self) -> bool {
        &&& self.layers@.len() >= 2
        &&& forall|k: int|
            0 <= k < self.layers@.len() ==> (#[trigger] self.layers@[k]).shaped(self.links(k))
    }

    /// Every layer has recorded `outs` outputs, every trainable layer `grads`
    /// gradients, and the input layer no gradient.
    pub open spec fn recorded(&self, outs: nat, grads: nat) -> bool {
        &&& forall|k: int|
            0 <= k < self.layers@.len() ==> (#[trigger] self.layers@[k]).old_outputs@.len() == outs
        &&& forall|k: int|
            1 <= k < self.layers@.len() ==> (#[trigger] self.layers@[k]).old_grads@.len() == grads
        &&& self.layers@[0].old_grads@.len() == 0
    }

    /// Well-formed between operations: shaped, with no sample recorded.
    pub open spec fn wf(&self) -> bool {
        &&& self.shaped()
        &&& self.recorded(0, 0)
    }

    /// The batch size and the epoch count are positive.
    pub open spec fn configured(&self) -> bool {
        &&& self.batch_size >= 1
        &&& self.epoch_amount >= 1
    }

    /// The parameters of each layer.
    pub open spec fn params(&self) -> Seq<LayerParams<S>> {
        self.layers@.map_values(|l: NeuroLayer<S>| params_of(l))
    }

    /// The neuron count of each layer.
    pub open spec fn sizes(&self) -> Seq<nat> {
        self.layers@.map_values(|l: NeuroLayer<S>| l.size())
    }

    pub open spec fn input_size(&self) -> nat {
        self.layers@[0].size()
    }

    pub open spec fn output_size(&self) -> nat {
        self.layers@[self.layers@.len() - 1].size()
    }

    /// The sample fits the input and output layers.
    pub open spec fn accepts(&self, s: Sample<S>) -> bool {
        &&& s.data@.len() == self.input_size()
        &&& s.solution@.len() == self.output_size()
    }

    /// Both networks have the same layers with the same weights, biases and
    /// activations.
    pub open spec fn same_layers(&self, other: &NeuroNetwork<S>) -> bool {
        &&& self.layers@.len() == other.layers@.len()
        &&& forall|k: int|
            0 <= k < self.layers@.len() ==> (#[trigger] self.layers@[k]).same_params(
                &other.layers@[k],
            )
    }

    /// Both networks have layers of the same sizes and activations, and the
    /// same configuration; the weights and biases may differ.
    pub open spec fn same_structure(&self, other: &NeuroNetwork<S>) -> bool {
        &&& self.layers@.len() == other.layers@.len()
        &&& forall|k: int|
            0 <= k < self.layers@.len() ==> (#[trigger] self.layers@[k]).size()
                == other.layers@[k].size() && self.layers@[k].activation
                == other.layers@[k].activation
        &&& self.batch_size == other.batch_size
        &&& self.epoch_amount == other.epoch_amount
        &&& self.error_function == other.error_function
    }

    /// The last forward pass started from `data`: the input layer's output
    /// is `data`, and each later layer took the output of the layer before.
    pub open spec fn passed_forward(&self, data: Seq<S>) -> bool {
        &&& self.layers@[0].output@ == data
        &&& forall|k: int|
            1 <= k < self.layers@.len() ==> (#[trigger] self.layers@[k].raw_input)@
                == self.layers@[k - 1].output@
    }

    /// The number of samples recorded since the last correction.
    pub open spec fn count(&self) -> nat {
        self.layers@[0].old_outputs@.len()
    }

    /// Both networks hold the same parameters, tags and configuration.
    pub open spec fn same_params(&self, other: &NeuroNetwork<S>) -> bool {
        &&& self.same_layers(other)
        &&& self.batch_size == other.batch_size
        &&& self.epoch_amount == other.epoch_amount
        &&& self.error_function == other.error_function
    }
}

/// The layer sizes describe a network: at least two layers, none empty.
pub open spec fn valid_sizes(layers: Seq<usize>) -> bool {
    &&& layers.len() >= 2
    &&& forall|i: int| 0 <= i < layers.len() ==> layers[i] > 0
}

/// The outputs of layer `k` for each sample of the batch.
pub open spec fn batch_outputs<S: Scalar>(m: Seq<LayerParams<S>>, batch: Seq<Sample<S>>, k: int) -> Seq<
    Seq<S>,
> {
    Seq::new(batch.len(), |s: int| layer_output(m, batch[s].data@, k))
}

/// The gradients of layer `k` for each sample of the batch.
pub open spec fn batch_grads<S: Scalar>(
    m: Seq<LayerParams<S>>,
    e: ErrorFunc,
    batch: Seq<Sample<S>>,
    k: int,
) -> Seq<Seq<S>> {
    Seq::new(batch.len(), |s: int| layer_grad(m, e, batch[s].data@, batch[s].solution@, k))
}

/// A layer's parameters after a correction with the given gradients and
/// previous-layer outputs, one of each per sample.
pub open spec fn corrected_params<S: Scalar>(
    p: LayerParams<S>,
    rate: S,
    grads: Seq<Seq<S>>,
    prevs: Seq<Seq<S>>,
) -> LayerParams<S> {
    (
        Seq::new(
            p.0.len(),
            |i: int|
                Seq::new(
                    p.0[i].len(),
                    |j: int| corrected_weight(p.0[i][j], rate, grads, prevs, i, j, grads.len() as int),
                ),
        ),
        Seq::new(p.1.len(), |i: int| corrected_bias(p.1[i], rate, grads, i, grads.len() as int)),
        p.2,
    )
}

/// The parameters after one batch: every sample runs forward and backward
/// on the same parameters, then every trainable layer is corrected with its
/// gradients and the previous layer's outputs; the input layer is kept.
pub open spec fn batch_update<S: Scalar>(
    m: Seq<LayerParams<S>>,
    e: ErrorFunc,
    batch: Seq<Sample<S>>,
    rate: S,
) -> Seq<LayerParams<S>> {
    Seq::new(
        m.len(),
        |k: int|
            if k == 0 {
                m[0]
            } else {
                corrected_params(m[k], rate, batch_grads(m, e, batch, k), batch_outputs(m, batch, k - 1))
            },
    )
}

/// Batch `q` of the samples in batches of `b`: samples `q·b` up to
/// `(q + 1)·b`, or up to the end for the last, shorter batch.
pub open spec fn chunk<S>(data: Seq<Sample<S>>, b: nat, q: nat) -> Seq<Sample<S>> {
    let end = if (q + 1) * b < data.len() {
        ((q + 1) * b) as int
    } else {
        data.len() as int
    };
    data.subrange((q * b) as int, end)
}

/// The batches split the samples in order: every batch but the last holds
/// `b` samples, the last holds the rest (`n - (count - 1)·b`, between 1 and
/// `b`), and together they hold all `n`.
pub proof fn lemma_chunk_sizes<S>(data: Seq<Sample<S>>, b: nat, q: nat)
    requires
        b >= 1,
        q < batch_count(data.len(), b),
    ensures
        q + 1 < batch_count(data.len(), b) ==> chunk(data, b, q).len() == b,
        q + 1 == batch_count(data.len(), b) ==> chunk(data, b, q).len() == data.len() - q * b
            && 1 <= chunk(data, b, q).len() <= b,
        chunk(data, b, q) == data.subrange((q * b) as int, (q * b + chunk(data, b, q).len()) as int),
{
    let n = data.len();
    let c = batch_count(n, b);
    lemma_batch_count_is_ceiling(n, b);
    assert(q * b < n) by (nonlinear_arith)
        requires
            q < c,
            c == 0 || (c - 1) * b < n,
            b >= 1,
    ;
    assert((q + 1) * b == q * b + b) by (nonlinear_arith);
    if q + 1 < c {
        assert((q + 1) * b < n) by (nonlinear_arith)
            requires
                q + 1 < c,
                (c - 1) * b < n,
                b >= 1,
        ;
    } else {
        assert(n <= (q + 1) * b) by (nonlinear_arith)
            requires
                q + 1 == c,
                c * b >= n,
        ;
    }
}

/// The parameters after the first `q` batches of an epoch, in order.
pub open spec fn apply_batches<S: Scalar>(
    m: Seq<LayerParams<S>>,
    e: ErrorFunc,
    data: Seq<Sample<S>>,
    b: nat,
    rate: S,
    q: nat,
) -> Seq<LayerParams<S>>
    decreases q,
{
    if q == 0 {
        m
    } else {
        batch_update(apply_batches(m, e, data, b, rate, (q - 1) as nat), e, chunk(data, b, (q - 1) as nat), rate)
    }
}

/// The parameters after one epoch: one batch update for each of the
/// `batch_count(n, b)` batches, in order.
pub open spec fn epoch_update<S: Scalar>(
    m: Seq<LayerParams<S>>,
    e: ErrorFunc,
    data: Seq<Sample<S>>,
    b: nat,
    rate: S,
) -> Seq<LayerParams<S>> {
    apply_batches(m, e, data, b, rate, batch_count(data.len(), b))
}

/// The parameters after `epochs` epochs.
pub open spec fn train_update<S: Scalar>(
    m: Seq<LayerParams<S>>,
    e: ErrorFunc,
    data: Seq<Sample<S>>,
    b: nat,
    rate: S,
    epochs: nat,
) -> Seq<LayerParams<S>>
    decreases epochs,
{
    if epochs == 0 {
        m
    } else {
        epoch_update(train_update(m, e, data, b, rate, (epochs - 1) as nat), e, data, b, rate)
    }
}

/// Training depends on the parameters, the configuration and the samples
/// alone: two networks that agree on weights, biases, activations, error
/// function, batch size and epoch count end with the same parameters when
/// trained on the same samples at the same rate.
pub proof fn lemma_training_is_deterministic<S: Scalar>(
    a: NeuroNetwork<S>,
    b: NeuroNetwork<S>,
    data: Seq<Sample<S>>,
    rate: S,
)
    requires
        a.same_params(&b),
    ensures
        train_update(
            a.params(),
            a.error_function.func,
            data,
            a.batch_size as nat,
            rate,
            a.epoch_amount as nat,
        ) == train_update(
            b.params(),
            b.error_function.func,
            data,
            b.batch_size as nat,
            rate,
            b.epoch_amount as nat,
        ),
{
    lemma_same_layers_params(a, b);
}

/// Training never changes the input layer.
pub proof fn lemma_training_keeps_input_layer<S: Scalar>(
    m: Seq<LayerParams<S>>,
    e: ErrorFunc,
    data: Seq<Sample<S>>,
    b: nat,
    rate: S,
    epochs: nat,
)
    requires
        m.len() >= 1,
    ensures
        train_update(m, e, data, b, rate, epochs).len() == m.len(),
        train_update(m, e, data, b, rate, epochs)[0] == m[0],
    decreases epochs,
{
    if epochs > 0 {
        lemma_training_keeps_input_layer(m, e, data, b, rate, (epochs - 1) as nat);
        let before = train_update(m, e, data, b, rate, (epochs - 1) as nat);
        lemma_batches_keep_input_layer(before, e, data, b, rate, batch_count(data.len(), b));
    }
}

/// Batch updates never change the input layer.
proof fn lemma_batches_keep_input_layer<S: Scalar>(
    m: Seq<LayerParams<S>>,
    e: ErrorFunc,
    data: Seq<Sample<S>>,
    b: nat,
    rate: S,
    q: nat,
)
    requires
        m.len() >= 1,
    ensures
        apply_batches(m, e, data, b, rate, q).len() == m.len(),
        apply_batches(m, e, data, b, rate, q)[0] == m[0],
    decreases q,
{
    if q > 0 {
        lemma_batches_keep_input_layer(m, e, data, b, rate, (q - 1) as nat);
    }
}

/// Training on no samples leaves the parameters as they were.
pub proof fn lemma_training_without_samples<S: Scalar>(
    m: Seq<LayerParams<S>>,
    e: ErrorFunc,
    data: Seq<Sample<S>>,
    b: nat,
    rate: S,
    epochs: nat,
)
    requires
        data.len() == 0,
        b >= 1,
    ensures
        train_update(m, e, data, b, rate, epochs) == m,
    decreases epochs,
{
    if epochs > 0 {
        lemma_training_without_samples(m, e, data, b, rate, (epochs - 1) as nat);
        lemma_batch_count_is_ceiling(0, b);
    }
}

/// A layer corrected from `before` holds the corrected parameters.
proof fn lemma_corrected_params<S: Scalar>(
    after: NeuroLayer<S>,
    before: NeuroLayer<S>,
    prevs: Seq<Seq<S>>,
    rate: S,
)
    requires
        after.corrected_from(&before, prevs, rate, before.old_grads@.len() as int),
        after.activation == before.activation,
        before.weights@.len() == before.basis@.len(),
    ensures
        params_of(after) == corrected_params(params_of(before), rate, rows(before.old_grads@), prevs),
{
    let target = corrected_params(params_of(before), rate, rows(before.old_grads@), prevs);
    assert(rows(before.old_grads@).len() == before.old_grads@.len());
    assert forall|i: int| 0 <= i < before.weights@.len() implies rows(after.weights@)[i]
        == target.0[i] by {
        assert(after.weights_step(&before, prevs, rate, i, before.old_grads@.len() as int));
        assert(rows(after.weights@)[i] =~= target.0[i]);
    }
    assert(rows(after.weights@) =~= target.0);
    assert(after.basis@ =~= target.1);
}

/// Networks whose layers agree on weights, biases and activations have the
/// same parameters.
pub proof fn lemma_same_layers_params<S>(a: NeuroNetwork<S>, b: NeuroNetwork<S>)
    requires
        a.same_layers(&b),
    ensures
        a.params() == b.params(),
{
    assert forall|i: int| 0 <= i < a.layers@.len() implies a.params()[i] == b.params()[i] by {
        assert(a.layers@[i].same_params(&b.layers@[i]));
    }
    assert(a.params() =~= b.params());
}

/// The output depends on the layers' weights, biases and activations
/// alone: networks that agree on them compute the same output from the
/// same input.
pub proof fn lemma_same_params_same_output<S: Scalar>(
    a: NeuroNetwork<S>,
    b: NeuroNetwork<S>,
    x: Seq<S>,
    k: int,
)
    requires
        a.same_layers(&b),
        k < a.layers@.len(),
    ensures
        layer_output(a.params(), x, k) == layer_output(b.params(), x, k),
{
    lemma_same_layers_params(a, b);
}

/// The number of batches `n` samples fall into with batches of `b`: the
/// last batch takes what is left.
pub open spec fn batch_count(n: nat, b: nat) -> nat {
    ((n + b - 1) / b as int) as nat
}

/// The batch count is the ceiling of `n / b`: `b` batches of that count
/// hold all `n` samples, and one batch fewer would not.
pub proof fn lemma_batch_count_is_ceiling(n: nat, b: nat)
    requires
        b > 0,
    ensures
        batch_count(n, b) * b >= n,
        batch_count(n, b) == 0 || (batch_count(n, b) - 1) * b < n,
        n > 0 ==> batch_count(n, b) > 0,
{
    let c: int = batch_count(n, b) as int;
    let t: int = n + b - 1;
    let bi: int = b as int;
    vstd::arithmetic::div_mod::lemma_fundamental_div_mod(t, bi);
    let m: int = t % bi;
    assert(c == t / bi);
    assert(t == bi * c + m);
    assert(0 <= m < bi);
    assert(c * bi >= n) by (nonlinear_arith)
        requires
            t == bi * c + m,
            m <= bi - 1,
            t == n + bi - 1,
    ;
    if c > 0 {
        assert((c - 1) * bi < n) by (nonlinear_arith)
            requires
                t == bi * c + m,
                m >= 0,
                t == n + bi - 1,
                c > 0,
        ;
    }
    if n > 0 {
        assert(c > 0) by (nonlinear_arith)
            requires
                t == bi * c + m,
                m < bi,
                t == n + bi - 1,
                n > 0,
                c >= 0,
        ;
    }
}

/// Past `q` full batches of `b`, a remainder of at most `b` samples makes
/// one batch more.
proof fn lemma_batch_count_step(q: nat, b: nat, n: nat)
    requires
        b > 0,
        q * b < n <= q * b + b,
    ensures
        batch_count(n, b) == q + 1,
{
    let t = n + b - 1;
    assert(t == (q + 1) * b + (n - q * b - 1)) by (nonlinear_arith)
        requires
            t == n + b - 1,
            q * b < n,
    ;
    vstd::arithmetic::div_mod::lemma_fundamental_div_mod_converse(
        t as int,
        b as int,
        (q + 1) as int,
        (n - q * b - 1) as int,
    );
}

/// The Glorot bound of a layer of `n` neurons after a layer of `m`:
/// `sqrt(6) / sqrt(n + m)`.
pub open spec fn glorot_bound<S: Scalar>(n: usize, m: usize) -> S {
    S::spec_from_usize(6).spec_sqrt().spec_divided_by(
        S::spec_from_usize(n).spec_plus(S::spec_from_usize(m)).spec_sqrt(),
    )
}

/// `n` successive draws within `bound`, and the source after them.
pub open spec fn draw_row<S, W: WeightSource<S>>(src: W, bound: S, n: nat) -> (W, Seq<S>)
    decreases n,
{
    if n == 0 {
        (src, Seq::empty())
    } else {
        let before = draw_row(src, bound, (n - 1) as nat);
        let after = before.0.spec_draw(bound);
        (after.0, before.1.push(after.1))
    }
}

/// `rows` rows of `links` successive draws within `bound`, row by row, and
/// the source after them.
pub open spec fn draw_rows<S, W: WeightSource<S>>(src: W, bound: S, rows: nat, links: nat) -> (
    W,
    Seq<Seq<S>>,
)
    decreases rows,
{
    if rows == 0 {
        (src, Seq::empty())
    } else {
        let before = draw_rows(src, bound, (rows - 1) as nat, links);
        let row = draw_row(before.0, bound, links);
        (row.0, before.1.push(row.1))
    }
}

/// The weight matrices of layers `1..=k` for the layer sizes, drawn layer
/// by layer within each layer's Glorot bound, and the source after them.
pub open spec fn glorot_draws<S: Scalar, W: WeightSource<S>>(src: W, sizes: Seq<usize>, k: nat) -> (
    W,
    Seq<Seq<Seq<S>>>,
)
    decreases k,
{
    if k == 0 {
        (src, Seq::empty())
    } else {
        let before = glorot_draws(src, sizes, (k - 1) as nat);
        let layer = draw_rows(
            before.0,
            glorot_bound::<S>(sizes[k as int], sizes[k - 1]),
            sizes[k as int] as nat,
            sizes[k - 1] as nat,
        );
        (layer.0, before.1.push(layer.1))
    }
}

/// `rows` rows of `links` values, each drawn from `source` within `bound`.
fn draw_matrix<S: Scalar, W: WeightSource<S>>(
    rows_amount: usize,
    links: usize,
    bound: S,
    source: &mut W,
) -> (r: Vec<Vec<S>>)
    ensures
        r@.len() == rows_amount,
        all_len(r@, links as nat),
        (*final(source), rows(r@)) == draw_rows(
            *old(source),
            bound,
            rows_amount as nat,
            links as nat,
        ),
{
    let mut r: Vec<Vec<S>> = Vec::with_capacity(rows_amount);
    let mut i: usize = 0;
    while i < rows_amount
        invariant
            i <= rows_amount,
            r@.len() == i,
            all_len(r@, links as nat),
            (*source, rows(r@)) == draw_rows(*old(source), bound, i as nat, links as nat),
        decreases rows_amount - i,
    {
        let ghost start = *source;
        let ghost prev = r@;
        let mut row: Vec<S> = Vec::with_capacity(links);
        let mut j: usize = 0;
        while j < links
            invariant
                j <= links,
                row@.len() == j,
                (*source, row@) == draw_row(start, bound, j as nat),
            decreases links - j,
        {
            row.push(source.draw(bound));
            j += 1;
        }
        r.push(row);
        i += 1;
        assert(rows(r@) =~= rows(prev).push(row@));
    }
    r
}

impl<S: Scalar> NeuroNetwork<S> {
    /// A network with the given layer sizes: a pass-through input layer, then
    /// trainable Sigmoid layers whose weights are drawn from `source` within
    /// the Glorot bound `sqrt(6) / sqrt(size(k) + size(k - 1))`; biases start
    /// at 0.001, the batch size at 1, the epoch count at 100, and the error
    /// function is `Simple`.
    pub fn new<W: WeightSource<S>>(layers: Vec<usize>, source: &mut W) -> (r: Result<
        NeuroNetwork<S>,
        NeuroError,
    >)
        ensures
            r is Err <==> !valid_sizes(layers@),
            r is Err ==> r == Err::<NeuroNetwork<S>, NeuroError>(NeuroError::InvalidConfiguration),
            r matches Ok(net) ==> {
                &&& net.wf()
                &&& net.sizes() == layers@.map_values(|n: usize| n as nat)
                &&& net.batch_size == 1
                &&& net.epoch_amount == 100
                &&& net.error_function.func == ErrorFunc::Simple
                &&& forall|k: int|
                    0 <= k < net.layers@.len() ==> (#[trigger] net.layers@[k]).activation.func
                        == ActivationFunc::Sigmoid
                &&& forall|k: int|
                    0 <= k < net.layers@.len() ==> (#[trigger] net.layers@[k]).basis@ == Seq::new(
                        layers@[k] as nat,
                        |i: int| initial_bias::<S>(),
                    )
                &&& forall|k: int|
                    1 <= k < net.layers@.len() ==> rows((#[trigger] net.layers@[k]).weights@)
                        == glorot_draws::<S, W>(
                        *old(source),
                        layers@,
                        (layers@.len() - 1) as nat,
                    ).1[k - 1]
                &&& *final(source) == glorot_draws::<S, W>(
                    *old(source),
                    layers@,
                    (layers@.len() - 1) as nat,
                ).0
            },
            r is Err ==> *final(source) == *old(source),
    {
        if layers.len() < 2 {
            return Err(NeuroError::InvalidConfiguration);
        }
        let mut i: usize = 0;
        while i < layers.len()
            invariant
                i <= layers@.len(),
                forall|j: int| 0 <= j < i ==> layers@[j] > 0,
            decreases layers@.len() - i,
        {
            if layers[i] == 0 {
                return Err(NeuroError::InvalidConfiguration);
            }
            i += 1;
        }
        let mut net_layers: Vec<NeuroLayer<S>> = Vec::with_capacity(layers.len());
        net_layers.push(NeuroLayer::new(layers[0], 0, ActivationFunc::Sigmoid));
        let six = S::from_usize(6).sqrt();
        let mut k: usize = 1;
        while k < layers.len()
            invariant
                1 <= k <= layers@.len(),
                valid_sizes(layers@),
                net_layers@.len() == k,
                forall|j: int| 0 <= j < k ==> (#[trigger] net_layers@[j]).size() == layers@[j],
                forall|j: int| 0 <= j < k ==> (#[trigger] net_layers@[j]).idle(),
                forall|j: int|
                    0 <= j < k ==> (#[trigger] net_layers@[j]).activation.func
                        == ActivationFunc::Sigmoid,
                forall|j: int|
                    0 <= j < k ==> (#[trigger] net_layers@[j]).shaped(
                        if j == 0 {
                            0
                        } else {
                            layers@[j - 1] as nat
                        },
                    ),
                six == S::spec_from_usize(6).spec_sqrt(),
                forall|j: int|
                    0 <= j < k ==> (#[trigger] net_layers@[j]).basis@ == Seq::new(
                        layers@[j] as nat,
                        |i: int| initial_bias::<S>(),
                    ),
                *source == glorot_draws::<S, W>(*old(source), layers@, (k - 1) as nat).0,
                glorot_draws::<S, W>(*old(source), layers@, (k - 1) as nat).1.len() == k - 1,
                forall|j: int|
                    1 <= j < k ==> rows((#[trigger] net_layers@[j]).weights@) == glorot_draws::<
                        S,
                        W,
                    >(*old(source), layers@, (k - 1) as nat).1[j - 1],
            decreases layers@.len() - k,
        {
            let ghost prior = glorot_draws::<S, W>(*old(source), layers@, (k - 1) as nat);
            let fan = S::from_usize(layers[k]).plus(S::from_usize(layers[k - 1])).sqrt();
            let bound = six.divided_by(fan);
            let mut layer = NeuroLayer::new(layers[k], layers[k - 1], ActivationFunc::Sigmoid);
            layer.weights = draw_matrix(layers[k], layers[k - 1], bound, source);
            net_layers.push(layer);
            k += 1;
            assert(glorot_draws::<S, W>(*old(source), layers@, (k - 1) as nat).1 == prior.1.push(
                rows(net_layers@[k - 1].weights@),
            ));
        }
        let net = NeuroNetwork {
            layers: net_layers,
            batch_size: 1,
            epoch_amount: 100,
            error_function: ErrorFunction::new(ErrorFunc::Simple),
        };
        assert(net.sizes() =~= layers@.map_values(|n: usize| n as nat));
        assert forall|k: int| 0 <= k < net.layers@.len() implies (#[trigger] net.layers@[k]).shaped(
            net.links(k),
        ) by {
            if k > 0 {
                assert(net.layers@[k - 1].size() == layers@[k - 1]);
            }
        }
        Ok(net)
    }

    /// Runs one sample forward: the input layer takes `data` as it is, and each
    /// following layer's `forward` takes the output of the layer before.
    fn forward(&mut self, data: Vec<S>)
        requires
            old(self).shaped(),
            old(self).recorded(old(self).count(), old(self).count()),
            data@.len() == old(self).input_size(),
        ensures
            final(self).shaped(),
            final(self).recorded(old(self).count() + 1, old(self).count()),
            final(self).same_params(old(self)),
            final(self).passed_forward(data@),
            forall|k: int|
                0 <= k < old(self).layers@.len() ==> (#[trigger] final(self).layers@[k]).output@
                    == layer_output(old(self).params(), data@, k),
            forall|k: int|
                1 <= k < old(self).layers@.len() ==> (#[trigger] final(self).layers@[k]).input@
                    == pre_out(old(self).params(), data@, k),
            forall|k: int|
                0 <= k < old(self).layers@.len() ==> rows(
                    (#[trigger] final(self).layers@[k]).old_outputs@,
                ) == rows(old(self).layers@[k].old_outputs@).push(
                    layer_output(old(self).params(), data@, k),
                ),
            forall|k: int|
                0 <= k < old(self).layers@.len() ==> (#[trigger] final(self).layers@[k]).old_grads
                    == old(self).layers@[k].old_grads,
    {
        let ghost c = self.count();
        let ghost data_view = data@;
        self.layers[0].raw_input = copy_vec(&data);
        self.layers[0].input = copy_vec(&data);
        self.layers[0].output = copy_vec(&data);
        let ghost outs0 = self.layers@[0].old_outputs@;
        self.layers[0].old_outputs.push(copy_vec(&data));
        assert(rows(self.layers@[0].old_outputs@) =~= rows(outs0).push(data_view));
        let mut input = data;
        let mut i: usize = 1;
        while i < self.layers.len()
            invariant
                1 <= i <= self.layers@.len(),
                self.layers@.len() == old(self).layers@.len(),
                self.shaped(),
                input@.len() == self.layers@[i - 1].size(),
                forall|k: int|
                    0 <= k < i ==> (#[trigger] self.layers@[k]).old_outputs@.len() == c + 1,
                forall|k: int|
                    i <= k < self.layers@.len() ==> (#[trigger] self.layers@[k]).old_outputs@.len()
                        == c,
                forall|k: int|
                    1 <= k < self.layers@.len() ==> (#[trigger] self.layers@[k]).old_grads@.len()
                        == c,
                self.layers@[0].old_grads@.len() == 0,
                self.same_params(old(self)),
                self.layers@[0].output@ == data_view,
                input@ == self.layers@[i - 1].output@,
                forall|k: int|
                    1 <= k < i ==> (#[trigger] self.layers@[k].raw_input)@ == self.layers@[k
                        - 1].output@,
                forall|k: int|
                    0 <= k < i ==> (#[trigger] self.layers@[k]).output@ == layer_output(
                        old(self).params(),
                        data_view,
                        k,
                    ),
                forall|k: int|
                    1 <= k < i ==> (#[trigger] self.layers@[k]).input@ == pre_out(
                        old(self).params(),
                        data_view,
                        k,
                    ),
                forall|k: int|
                    0 <= k < i ==> rows((#[trigger] self.layers@[k]).old_outputs@) == rows(
                        old(self).layers@[k].old_outputs@,
                    ).push(layer_output(old(self).params(), data_view, k)),
                forall|k: int|
                    i <= k < self.layers@.len() ==> (#[trigger] self.layers@[k]).old_outputs
                        == old(self).layers@[k].old_outputs,
                forall|k: int|
                    0 <= k < self.layers@.len() ==> (#[trigger] self.layers@[k]).old_grads
                        == old(self).layers@[k].old_grads,
            decreases self.layers@.len() - i,
        {
            let ghost before = *self;
            input = self.layers[i].forward(input);
            assert(self.layers@[0] == before.layers@[0]);
            assert(before.layers@[i as int].same_params(&old(self).layers@[i as int]));
            assert(old(self).params()[i as int] == params_of(before.layers@[i as int]));
            assert forall|k: int| 0 <= k < i + 1 implies (#[trigger] self.layers@[k]).output@
                == layer_output(old(self).params(), data_view, k) && rows(
                self.layers@[k].old_outputs@,
            ) == rows(old(self).layers@[k].old_outputs@).push(
                layer_output(old(self).params(), data_view, k),
            ) by {
                if k < i {
                    assert(self.layers@[k] == before.layers@[k]);
                }
            }
            assert forall|k: int| 1 <= k < i + 1 implies (#[trigger] self.layers@[k]).input@
                == pre_out(old(self).params(), data_view, k) by {
                if k < i {
                    assert(self.layers@[k] == before.layers@[k]);
                }
            }
            assert forall|k: int| 1 <= k < i + 1 implies (#[trigger] self.layers@[k].raw_input)@
                == self.layers@[k - 1].output@ by {
                assert(self.layers@[k - 1] == before.layers@[k - 1]);
                if k < i {
                    assert(self.layers@[k] == before.layers@[k]);
                }
            }
            assert(self.layers@[i as int].old_outputs@.len() == rows(
                self.layers@[i as int].old_outputs@,
            ).len());
            assert forall|k: int| 0 <= k < self.layers@.len() implies (#[trigger] self.layers@[
                k
            ]).shaped(self.links(k)) by {
                assert(before.layers@[k].shaped(before.links(k)));
                if k > 0 {
                    assert(self.layers@[k - 1].size() == before.layers@[k - 1].size());
                }
            }
            assert(self.same_params(old(self))) by {
                assert forall|k: int| 0 <= k < self.layers@.len() implies (#[trigger] self.layers@[
                    k
                ]).same_params(&old(self).layers@[k]) by {
                    assert(before.layers@[k].same_params(&old(self).layers@[k]));
                }
            }
            i += 1;
        }
    }

    /// Runs one target backward: the output layer's gradient is
    /// `error.df(output[i], target[i]) · activation.df(input)[i]`, and each
    /// earlier trainable layer's `backward` takes the gradient and weights of
    /// the layer after it. Returns the sum of the output gradient's entries,
    /// a progress figure rather than a loss.
    fn backward(&mut self, desired_output: Vec<S>, Ghost(x): Ghost<Seq<S>>) -> (cost: S)
        requires
            old(self).shaped(),
            old(self).count() >= 1,
            old(self).recorded(old(self).count(), (old(self).count() - 1) as nat),
            desired_output@.len() == old(self).output_size(),
            forall|k: int|
                1 <= k < old(self).layers@.len() ==> (#[trigger] old(self).layers@[k]).input@
                    == pre_out(old(self).params(), x, k),
            old(self).layers@[old(self).layers@.len() - 1].output@ == layer_output(
                old(self).params(),
                x,
                old(self).layers@.len() - 1,
            ),
        ensures
            final(self).shaped(),
            final(self).recorded(old(self).count(), old(self).count()),
            final(self).same_params(old(self)),
            forall|k: int|
                1 <= k < old(self).layers@.len() ==> rows(
                    (#[trigger] final(self).layers@[k]).old_grads@,
                ) == rows(old(self).layers@[k].old_grads@).push(
                    layer_grad(old(self).params(), old(self).error_function.func, x, desired_output@, k),
                ),
            forall|k: int|
                0 <= k < old(self).layers@.len() ==> (#[trigger] final(self).layers@[k]).old_outputs
                    == old(self).layers@[k].old_outputs,
            final(self).layers@[0].old_grads == old(self).layers@[0].old_grads,
    {
        let ghost p = self.params();
        let ghost e = self.error_function.func;
        let ghost c = (self.count() - 1) as nat;
        let last = self.layers.len() - 1;
        let n = self.layers[last].basis.len();
        assert(self.layers@[last as int].shaped(self.links(last as int)));
        let df = self.layers[last].activation.df(copy_vec(&self.layers[last].input));
        let mut grad: Vec<S> = Vec::with_capacity(n);
        let mut cost = S::zero();
        let mut i: usize = 0;
        while i < n
            invariant
                i <= n,
                n == self.layers@[last as int].size(),
                last == self.layers@.len() - 1,
                self.shaped(),
                df@.len() == n,
                desired_output@.len() == n,
                *self == *old(self),
                e == self.error_function.func,
                grad@ == Seq::new(
                    i as nat,
                    |k: int| error_derivative(
                        e,
                        self.layers@[last as int].output@[k],
                        desired_output@[k],
                    ).spec_times(df@[k]),
                ),
            decreases n - i,
        {
            assert(self.layers@[last as int].shaped(self.links(last as int)));
            let g = self.error_function.df(self.layers[last].output[i], desired_output[i]).times(
                df[i],
            );
            grad.push(g);
            cost = cost.plus(g);
            i += 1;
            assert(grad@ =~= Seq::new(
                i as nat,
                |k: int| error_derivative(
                    e,
                    self.layers@[last as int].output@[k],
                    desired_output@[k],
                ).spec_times(df@[k]),
            ));
        }
        assert(p[last as int] == params_of(self.layers@[last as int]));
        assert(grad@ =~= layer_grad(p, e, x, desired_output@, last as int));
        let mut weights = copy_matrix(&self.layers[last].weights);
        let ghost before = *self;
        self.layers[last].old_grads.push(copy_vec(&grad));
        self.layers[last].grad = copy_vec(&grad);
        assert(rows(self.layers@[last as int].old_grads@) =~= rows(
            old(self).layers@[last as int].old_grads@,
        ).push(grad@));
        assert forall|k: int| 0 <= k < self.layers@.len() implies (#[trigger] self.layers@[
            k
        ]).shaped(self.links(k)) by {
            assert(before.layers@[k].shaped(before.links(k)));
            if k > 0 {
                assert(self.layers@[k - 1].size() == before.layers@[k - 1].size());
            }
            if k == last {
                let l = self.layers@[k];
                assert forall|j: int| 0 <= j < l.old_grads@.len() implies (#[trigger] l.old_grads@[
                    j
                ])@.len() == l.size() by {
                    if j < before.layers@[k].old_grads@.len() {
                        assert(l.old_grads@[j] == before.layers@[k].old_grads@[j]);
                    }
                }
            }
        }
        assert(self.same_params(old(self))) by {
            assert forall|k: int| 0 <= k < self.layers@.len() implies (#[trigger] self.layers@[
                k
            ]).same_params(&old(self).layers@[k]) by {
                assert(before.layers@[k].same_params(&old(self).layers@[k]));
            }
        }
        let mut i: usize = last;
        while i > 1
            invariant
                1 <= i <= last,
                last == self.layers@.len() - 1,
                self.layers@.len() == old(self).layers@.len(),
                self.shaped(),
                grad@.len() == self.layers@[i as int].size(),
                weights@.len() == grad@.len(),
                all_len(weights@, self.layers@[i - 1].size()),
                forall|k: int|
                    0 <= k < self.layers@.len() ==> (#[trigger] self.layers@[k]).old_outputs@.len()
                        == c + 1,
                forall|k: int|
                    1 <= k < i ==> (#[trigger] self.layers@[k]).old_grads@.len() == c,
                forall|k: int|
                    i <= k < self.layers@.len() ==> (#[trigger] self.layers@[k]).old_grads@.len()
                        == c + 1,
                self.layers@[0].old_grads@.len() == 0,
                self.same_params(old(self)),
                p == old(self).params(),
                e == old(self).error_function.func,
                forall|k: int|
                    1 <= k < old(self).layers@.len() ==> (#[trigger] old(self).layers@[k]).input@
                        == pre_out(p, x, k),
                grad@ == layer_grad(p, e, x, desired_output@, i as int),
                rows(weights@) == p[i as int].0,
                forall|k: int|
                    i <= k < self.layers@.len() ==> rows((#[trigger] self.layers@[k]).old_grads@)
                        == rows(old(self).layers@[k].old_grads@).push(
                        layer_grad(p, e, x, desired_output@, k),
                    ),
                forall|k: int|
                    0 <= k < i ==> (#[trigger] self.layers@[k]).old_grads
                        == old(self).layers@[k].old_grads,
                forall|k: int|
                    0 <= k < self.layers@.len() ==> (#[trigger] self.layers@[k]).old_outputs
                        == old(self).layers@[k].old_outputs && self.layers@[k].input
                        == old(self).layers@[k].input,
            decreases i,
        {
            i -= 1;
            let ghost before = *self;
            assert(self.layers@[i as int].shaped(self.links(i as int)));
            let (g, w) = self.layers[i].backward(grad, weights);
            assert(all_len(w@, self.layers@[i - 1].size())) by {
                assert(before.layers@[i as int].shaped(before.links(i as int)));
                assert(rows(w@).len() == w@.len());
                assert(rows(before.layers@[i as int].weights@).len()
                    == before.layers@[i as int].weights@.len());
                assert forall|j: int| 0 <= j < w@.len() implies (#[trigger] w@[j])@.len()
                    == self.layers@[i - 1].size() by {
                    assert(rows(w@)[j] == w@[j]@);
                    assert(rows(w@)[j] == rows(before.layers@[i as int].weights@)[j]);
                }
            }
            assert(rows(self.layers@[i as int].old_grads@).len()
                == self.layers@[i as int].old_grads@.len());
            assert(rows(before.layers@[i as int].old_grads@).len()
                == before.layers@[i as int].old_grads@.len());
            assert(w@.len() == g@.len()) by {
                assert(before.layers@[i as int].shaped(before.links(i as int)));
                assert(rows(w@).len() == w@.len());
                assert(rows(before.layers@[i as int].weights@).len()
                    == before.layers@[i as int].weights@.len());
            }
            assert(p[i as int] == params_of(old(self).layers@[i as int]));
            assert(old(self).layers@[i as int].same_params(&before.layers@[i as int]));
            assert(before.layers@[i as int].input@ == pre_out(p, x, i as int));
            assert(before.layers@[i as int].activation.func == p[i as int].2);
            assert(layer_grad(p, e, x, desired_output@, i as int) == layer_gradient(
                layer_grad(p, e, x, desired_output@, i + 1),
                p[i + 1].0,
                activation_df_of(p[i as int].2, pre_out(p, x, i as int)),
            ));
            assert(g@ == layer_grad(p, e, x, desired_output@, i as int));
            assert(rows(w@) == p[i as int].0);
            grad = g;
            weights = w;
            assert forall|k: int| 0 <= k < self.layers@.len() implies (#[trigger] self.layers@[
                k
            ]).shaped(self.links(k)) by {
                assert(before.layers@[k].shaped(before.links(k)));
                if k > 0 {
                    assert(self.layers@[k - 1].size() == before.layers@[k - 1].size());
                }
                if k == i {
                    let l = self.layers@[k];
                    assert forall|j: int| 0 <= j < l.old_grads@.len() implies (#[trigger] l.old_grads@[
                        j
                    ])@.len() == l.size() by {
                        assert(rows(l.old_grads@).len() == l.old_grads@.len());
                        assert(rows(l.old_grads@)[j] == l.old_grads@[j]@);
                        assert(rows(l.old_grads@)[j] == rows(before.layers@[k].old_grads@).push(
                            grad@,
                        )[j]);
                    }
                }
            }
            assert(self.same_params(old(self))) by {
                assert forall|k: int| 0 <= k < self.layers@.len() implies (#[trigger] self.layers@[
                    k
                ]).same_params(&old(self).layers@[k]) by {
                    assert(before.layers@[k].same_params(&old(self).layers@[k]));
                }
            }
        }
        cost
    }

    /// Corrects every trainable layer, first to last, each with the outputs
    /// the layer before it recorded, then clears the input layer.
    fn correct(&mut self, learning_rate: S)
        requires
            old(self).shaped(),
            old(self).recorded(old(self).count(), old(self).count()),
        ensures
            final(self).wf(),
            final(self).same_structure(old(self)),
            final(self).layers@[0].same_params(&old(self).layers@[0]),
            forall|k: int|
                1 <= k < old(self).layers@.len() ==> (#[trigger] final(self).layers@[k]).corrected_from(
                    &old(self).layers@[k],
                    rows(old(self).layers@[k - 1].old_outputs@),
                    learning_rate,
                    old(self).count() as int,
                ),
    {
        let ghost c = self.count();
        let mut prev = copy_matrix(&self.layers[0].old_outputs);
        let mut i: usize = 1;
        while i < self.layers.len()
            invariant
                1 <= i <= self.layers@.len(),
                self.layers@.len() == old(self).layers@.len(),
                self.shaped(),
                self.same_structure(old(self)),
                prev@.len() == c,
                all_len(prev@, self.layers@[i - 1].size()),
                forall|k: int| 1 <= k < i ==> (#[trigger] self.layers@[k]).idle(),
                forall|k: int|
                    i <= k < self.layers@.len() ==> (#[trigger] self.layers@[k]).old_grads@.len()
                        == c,
                forall|k: int|
                    i <= k < self.layers@.len() ==> (#[trigger] self.layers@[k]).old_outputs@.len()
                        == c,
                self.layers@[0].old_grads@.len() == 0,
                c == old(self).count(),
                old(self).recorded(c, c),
                rows(prev@) == rows(old(self).layers@[i - 1].old_outputs@),
                self.layers@[0] == old(self).layers@[0],
                forall|k: int| i <= k < self.layers@.len() ==> self.layers@[k] == old(self).layers@[k],
                forall|k: int|
                    1 <= k < i ==> (#[trigger] self.layers@[k]).corrected_from(
                        &old(self).layers@[k],
                        rows(old(self).layers@[k - 1].old_outputs@),
                        learning_rate,
                        c as int,
                    ),
            decreases self.layers@.len() - i,
        {
            let ghost before = *self;
            assert(self.layers@[i as int].shaped(self.links(i as int)));
            let next = copy_matrix(&self.layers[i].old_outputs);
            assert(all_len(next@, self.layers@[i as int].size())) by {
                assert forall|j: int| 0 <= j < next@.len() implies (#[trigger] next@[j])@.len()
                    == self.layers@[i as int].size() by {
                    assert(next@[j]@ == self.layers@[i as int].old_outputs@[j]@);
                }
            }
            let ghost prev_rows = rows(prev@);
            assert(prev@.len() == rows(prev@).len());
            self.layers[i].correct(prev, learning_rate);
            proof {
                let l = self.layers@[i as int];
                let o = old(self).layers@[i as int];
                assert(o == before.layers@[i as int]);
                assert(o.old_grads@.len() == c);
                if c == 0 {
                    assert forall|r: int| #![trigger l.weights@[r]]
                        0 <= r < o.weights@.len() implies l.weights_step(
                        &o,
                        prev_rows,
                        learning_rate,
                        r,
                        0,
                    ) by {}
                }
                assert(l.corrected_from(&o, prev_rows, learning_rate, c as int));
            }
            assert(rows(next@) =~= rows(old(self).layers@[i as int].old_outputs@));
            prev = next;
            assert forall|k: int| 0 <= k < self.layers@.len() implies (#[trigger] self.layers@[
                k
            ]).shaped(self.links(k)) by {
                assert(before.layers@[k].shaped(before.links(k)));
                if k > 0 {
                    assert(self.layers@[k - 1].size() == before.layers@[k - 1].size());
                }
            }
            i += 1;
        }
        assert(self.layers@[0].shaped(0));
        let ghost before_first = *self;
        self.layers[0].correct(Vec::new(), learning_rate);
        assert forall|k: int|
            1 <= k < self.layers@.len() implies (#[trigger] self.layers@[k]).corrected_from(
            &old(self).layers@[k],
            rows(old(self).layers@[k - 1].old_outputs@),
            learning_rate,
            c as int,
        ) by {
            assert(self.layers@[k] == before_first.layers@[k]);
        }
        assert forall|k: int| 0 <= k < self.layers@.len() implies (#[trigger] self.layers@[
            k
        ]).shaped(self.links(k)) by {
            assert(old(self).layers@[k].shaped(old(self).links(k)));
        }
    }

    /// Runs the samples `start..end` forward and backward, then corrects the
    /// layers once. Returns the sum of the samples' progress figures.
    fn train_step(&mut self, data: &Vec<Sample<S>>, start: usize, end: usize, learning_rate: S) -> (r:
        S)
        requires
            old(self).wf(),
            start < end <= data@.len(),
            forall|i: int| 0 <= i < data@.len() ==> old(self).accepts(#[trigger] data@[i]),
        ensures
            final(self).wf(),
            final(self).same_structure(old(self)),
            final(self).params() == batch_update(
                old(self).params(),
                old(self).error_function.func,
                data@.subrange(start as int, end as int),
                learning_rate,
            ),
    {
        let ghost p = self.params();
        let ghost e = self.error_function.func;
        let mut batch_cost = S::zero();
        let mut s: usize = start;
        while s < end
            invariant
                start <= s <= end,
                end <= data@.len(),
                self.shaped(),
                self.recorded((s - start) as nat, (s - start) as nat),
                self.count() == s - start,
                self.same_structure(old(self)),
                self.same_layers(old(self)),
                p == old(self).params(),
                e == old(self).error_function.func,
                forall|i: int| 0 <= i < data@.len() ==> old(self).accepts(#[trigger] data@[i]),
                forall|j: int|
                    0 <= j < self.layers@.len() ==> rows((#[trigger] self.layers@[j]).old_outputs@)
                        == batch_outputs(p, data@.subrange(start as int, s as int), j),
                forall|j: int|
                    1 <= j < self.layers@.len() ==> rows((#[trigger] self.layers@[j]).old_grads@)
                        == batch_grads(p, e, data@.subrange(start as int, s as int), j),
            decreases end - s,
        {
            let ghost before = *self;
            let ghost x = data@[s as int].data@;
            let ghost t = data@[s as int].solution@;
            assert(old(self).accepts(data@[s as int]));
            proof {
                lemma_same_layers_params(before, *old(self));
            }
            self.forward(copy_vec(&data[s].data));
            let ghost mid = *self;
            proof {
                lemma_same_layers_params(mid, before);
            }
            let cost = self.backward(copy_vec(&data[s].solution), Ghost(x));
            assert(self.same_structure(old(self))) by {
                assert forall|k: int| 0 <= k < self.layers@.len() implies (#[trigger] self.layers@[
                    k
                ]).size() == old(self).layers@[k].size() && self.layers@[k].activation
                    == old(self).layers@[k].activation by {
                    assert(self.layers@[k].same_params(&mid.layers@[k]));
                    assert(mid.layers@[k].same_params(&before.layers@[k]));
                }
            }
            assert(self.same_layers(old(self))) by {
                assert forall|k: int| 0 <= k < self.layers@.len() implies (#[trigger] self.layers@[
                    k
                ]).same_params(&old(self).layers@[k]) by {
                    assert(self.layers@[k].same_params(&mid.layers@[k]));
                    assert(mid.layers@[k].same_params(&before.layers@[k]));
                    assert(before.layers@[k].same_params(&old(self).layers@[k]));
                }
            }
            let ghost done = data@.subrange(start as int, s as int);
            let ghost more = data@.subrange(start as int, s + 1);
            assert(more =~= done.push(data@[s as int]));
            assert forall|j: int| 0 <= j < self.layers@.len() implies rows(
                (#[trigger] self.layers@[j]).old_outputs@,
            ) == batch_outputs(p, more, j) by {
                assert(self.layers@[j].old_outputs == mid.layers@[j].old_outputs);
                assert(batch_outputs(p, more, j) =~= batch_outputs(p, done, j).push(
                    layer_output(p, x, j),
                ));
            }
            assert forall|j: int| 1 <= j < self.layers@.len() implies rows(
                (#[trigger] self.layers@[j]).old_grads@,
            ) == batch_grads(p, e, more, j) by {
                assert(mid.layers@[j].old_grads == before.layers@[j].old_grads);
                assert(batch_grads(p, e, more, j) =~= batch_grads(p, e, done, j).push(
                    layer_grad(p, e, x, t, j),
                ));
            }
            batch_cost = batch_cost.plus(cost);
            s += 1;
        }
        let ghost before = *self;
        proof {
            lemma_same_layers_params(before, *old(self));
        }
        self.correct(learning_rate);
        proof {
            let batch = data@.subrange(start as int, end as int);
            let target = batch_update(p, e, batch, learning_rate);
            assert forall|k: int| 0 <= k < self.layers@.len() implies self.params()[k]
                == target[k] by {
                if k == 0 {
                    assert(self.layers@[0].same_params(&before.layers@[0]));
                } else {
                    assert(before.layers@[k].shaped(before.links(k)));
                    assert(rows(before.layers@[k].old_grads@).len()
                        == before.layers@[k].old_grads@.len());
                    lemma_corrected_params(
                        self.layers@[k],
                        before.layers@[k],
                        rows(before.layers@[k - 1].old_outputs@),
                        learning_rate,
                    );
                    assert(self.layers@[k].activation == before.layers@[k].activation);
                }
            }
            assert(self.params() =~= target);
        }
        batch_cost
    }

    /// One pass over the samples in batches of `batch_size` (the last batch
    /// takes what is left): each batch runs forward and backward per sample,
    /// then corrects the layers once. Returns the sum of the samples'
    /// progress figures and the number of corrections made.
    pub fn train_epoch(&mut self, data: &Vec<Sample<S>>, learning_rate: S) -> (r: (S, usize))
        requires
            old(self).wf(),
            old(self).batch_size >= 1,
            forall|i: int| 0 <= i < data@.len() ==> old(self).accepts(#[trigger] data@[i]),
        ensures
            final(self).wf(),
            final(self).same_structure(old(self)),
            r.1 == batch_count(data@.len(), old(self).batch_size as nat),
            final(self).params() == epoch_update(
                old(self).params(),
                old(self).error_function.func,
                data@,
                old(self).batch_size as nat,
                learning_rate,
            ),
    {
        let ghost p = self.params();
        let ghost e = self.error_function.func;
        let n = data.len();
        let b = self.batch_size;
        let mut epoch_cost = S::zero();
        let mut corrections: usize = 0;
        let mut start: usize = 0;
        proof {
            if n == 0 {
                lemma_batch_count_is_ceiling(0, b as nat);
            }
        }
        while start < n
            invariant
                start <= n,
                n == data@.len(),
                b == self.batch_size,
                b >= 1,
                corrections <= start,
                start < n ==> start == corrections * b,
                start == n ==> corrections == batch_count(n as nat, b as nat),
                self.params() == apply_batches(p, e, data@, b as nat, learning_rate, corrections as nat),
                e == self.error_function.func,
                self.wf(),
                self.same_structure(old(self)),
                forall|i: int| 0 <= i < data@.len() ==> old(self).accepts(#[trigger] data@[i]),
            decreases n - start,
        {
            let end = if n - start > b {
                start + b
            } else {
                n
            };
            proof {
                if end == n {
                    lemma_batch_count_step(corrections as nat, b as nat, n as nat);
                } else {
                    assert(end == (corrections + 1) * b) by (nonlinear_arith)
                        requires
                            start == corrections * b,
                            end == start + b,
                    ;
                }
            }
            assert(data@.subrange(start as int, end as int) == chunk(data@, b as nat, corrections as nat)) by {
                assert((corrections + 1) * b == corrections * b + b) by (nonlinear_arith);
            }
            let cost = self.train_step(data, start, end, learning_rate);
            epoch_cost = epoch_cost.plus(cost);
            corrections += 1;
            start = end;
        }
        (epoch_cost, corrections)
    }

    /// Trains for `epoch_amount` epochs over the samples, in batches of
    /// `batch_size`. Returns each epoch's progress figure.
    ///
    /// Fails with `InvalidConfiguration` when the batch size or the epoch
    /// count is zero, else with `DimensionMismatch` when a sample does not
    /// fit the input or output layer; the network is then left as it was.
    pub fn train(&mut self, data: Vec<Sample<S>>, learning_rate: S) -> (r: Result<
        Vec<S>,
        NeuroError,
    >)
        requires
            old(self).wf(),
        ensures
            final(self).wf(),
            final(self).same_structure(old(self)),
            !old(self).configured() ==> r == Err::<Vec<S>, NeuroError>(
                NeuroError::InvalidConfiguration,
            ),
            old(self).configured() && !(forall|i: int|
                0 <= i < data@.len() ==> old(self).accepts(#[trigger] data@[i])) ==> r == Err::<
                Vec<S>,
                NeuroError,
            >(NeuroError::DimensionMismatch),
            r is Err ==> *final(self) == *old(self),
            r matches Ok(costs) ==> costs@.len() == old(self).epoch_amount,
            r is Ok ==> final(self).params()[0] == old(self).params()[0],
            r is Ok ==> final(self).params() == train_update(
                old(self).params(),
                old(self).error_function.func,
                data@,
                old(self).batch_size as nat,
                learning_rate,
                old(self).epoch_amount as nat,
            ),
            r is Ok <==> old(self).configured() && forall|i: int|
                0 <= i < data@.len() ==> old(self).accepts(#[trigger] data@[i]),
    {
        if self.batch_size == 0 || self.epoch_amount == 0 {
            return Err(NeuroError::InvalidConfiguration);
        }
        let first = self.layers[0].basis.len();
        let last = self.layers[self.layers.len() - 1].basis.len();
        let mut i: usize = 0;
        while i < data.len()
            invariant
                i <= data@.len(),
                *self == *old(self),
                self.wf(),
                self.configured(),
                first == self.input_size(),
                last == self.output_size(),
                forall|j: int| 0 <= j < i ==> self.accepts(#[trigger] data@[j]),
            decreases data@.len() - i,
        {
            if data[i].data.len() != first || data[i].solution.len() != last {
                return Err(NeuroError::DimensionMismatch);
            }
            i += 1;
        }
        let mut costs: Vec<S> = Vec::with_capacity(self.epoch_amount);
        let mut e: usize = 0;
        while e < self.epoch_amount
            invariant
                e <= self.epoch_amount,
                costs@.len() == e,
                self.wf(),
                self.same_structure(old(self)),
                self.batch_size >= 1,
                forall|j: int| 0 <= j < data@.len() ==> self.accepts(#[trigger] data@[j]),
                self.params() == train_update(
                    old(self).params(),
                    old(self).error_function.func,
                    data@,
                    old(self).batch_size as nat,
                    learning_rate,
                    e as nat,
                ),
            decreases self.epoch_amount - e,
        {
            let ghost before = *self;
            let (cost, _) = self.train_epoch(&data, learning_rate);
            assert forall|j: int| 0 <= j < data@.len() implies self.accepts(#[trigger] data@[j]) by {
                assert(before.accepts(data@[j]));
            }
            costs.push(cost);
            e += 1;
        }
        proof {
            lemma_training_keeps_input_layer(
                old(self).params(),
                old(self).error_function.func,
                data@,
                old(self).batch_size as nat,
                learning_rate,
                old(self).epoch_amount as nat,
            );
        }
        Ok(costs)
    }

    /// Runs `data` forward, clears every layer's histories, and returns the
    /// output layer's output. Weights and biases are left as they were.
    ///
    /// Fails with `DimensionMismatch` when `data` does not fit the input
    /// layer; the network is then left as it was.
    pub fn solve(&mut self, data: Vec<S>) -> (r: Result<Vec<S>, NeuroError>)
        requires
            old(self).wf(),
        ensures
            final(self).wf(),
            final(self).same_params(old(self)),
            data@.len() != old(self).input_size() ==> r == Err::<Vec<S>, NeuroError>(
                NeuroError::DimensionMismatch,
            ) && *final(self) == *old(self),
            data@.len() == old(self).input_size() ==> r is Ok,
            r matches Ok(out) ==> out@ == final(self).layers@[final(self).layers@.len()
                - 1].output@ && out@.len() == old(self).output_size(),
            r is Ok ==> final(self).passed_forward(data@),
            r matches Ok(out) ==> out@ == layer_output(
                old(self).params(),
                data@,
                old(self).layers@.len() - 1,
            ),
    {
        if data.len() != self.layers[0].basis.len() {
            return Err(NeuroError::DimensionMismatch);
        }
        let ghost data_view = data@;
        self.forward(data);
        let ghost mid = *self;
        let last = self.layers.len() - 1;
        assert(self.layers@[last as int].shaped(self.links(last as int)));
        let output = copy_vec(&self.layers[last].output);
        self.clear_layers();
        assert(self.passed_forward(data_view)) by {
            assert(self.layers@[0].output == mid.layers@[0].output);
            assert forall|k: int| 1 <= k < self.layers@.len() implies (#[trigger] self.layers@[
                k
            ].raw_input)@ == self.layers@[k - 1].output@ by {
                assert(mid.layers@[k].raw_input@ == mid.layers@[k - 1].output@);
                assert(self.layers@[k - 1].output == mid.layers@[k - 1].output);
            }
        }
        assert(self.same_params(old(self))) by {
            assert forall|k: int| 0 <= k < self.layers@.len() implies (#[trigger] self.layers@[
                k
            ]).same_params(&old(self).layers@[k]) by {
                assert(self.layers@[k].same_params(&mid.layers@[k]));
                assert(mid.layers@[k].same_params(&old(self).layers@[k]));
            }
        }
        Ok(output)
    }

    /// Drops every layer's recorded histories.
    fn clear_layers(&mut self)
        requires
            old(self).shaped(),
        ensures
            final(self).wf(),
            final(self).same_params(old(self)),
            final(self).layers@.len() == old(self).layers@.len(),
            forall|k: int|
                0 <= k < old(self).layers@.len() ==> (#[trigger] final(self).layers@[k]).output
                    == old(self).layers@[k].output && final(self).layers@[k].raw_input
                    == old(self).layers@[k].raw_input,
    {
        let mut i: usize = 0;
        while i < self.layers.len()
            invariant
                i <= self.layers@.len(),
                self.layers@.len() == old(self).layers@.len(),
                self.batch_size == old(self).batch_size,
                self.epoch_amount == old(self).epoch_amount,
                self.error_function == old(self).error_function,
                forall|k: int|
                    0 <= k < self.layers@.len() ==> {
                        &&& (#[trigger] self.layers@[k]).weights == old(self).layers@[k].weights
                        &&& self.layers@[k].basis == old(self).layers@[k].basis
                        &&& self.layers@[k].activation == old(self).layers@[k].activation
                        &&& self.layers@[k].input == old(self).layers@[k].input
                        &&& self.layers@[k].output == old(self).layers@[k].output
                        &&& self.layers@[k].grad == old(self).layers@[k].grad
                        &&& self.layers@[k].raw_input == old(self).layers@[k].raw_input
                    },
                forall|k: int| 0 <= k < i ==> (#[trigger] self.layers@[k]).idle(),
            decreases self.layers@.len() - i,
        {
            self.layers[i].clear();
            i += 1;
        }
        assert forall|k: int| 0 <= k < self.layers@.len() implies (#[trigger] self.layers@[
            k
        ]).shaped(self.links(k)) by {
            assert(old(self).layers@[k].shaped(old(self).links(k)));
        }
    }

    /// The network with every layer's activation set to `activation`.
    pub fn with_activation(self, activation: ActivationFunc) -> (r: NeuroNetwork<S>)
        ensures
            r.layers@ == self.layers@.map_values(
                |l: NeuroLayer<S>| layer_with_activation(l, activation),
            ),
            r.batch_size == self.batch_size,
            r.epoch_amount == self.epoch_amount,
            r.error_function == self.error_function,
            self.wf() ==> r.wf(),
    {
        let ghost orig = self;
        let mut net = self;
        let mut i: usize = 0;
        while i < net.layers.len()
            invariant
                i <= net.layers@.len(),
                net.layers@.len() == orig.layers@.len(),
                forall|j: int|
                    0 <= j < i ==> net.layers@[j] == layer_with_activation(
                        orig.layers@[j],
                        activation,
                    ),
                forall|j: int| i <= j < net.layers@.len() ==> net.layers@[j] == orig.layers@[j],
                net.batch_size == orig.batch_size,
                net.epoch_amount == orig.epoch_amount,
                net.error_function == orig.error_function,
            decreases net.layers@.len() - i,
        {
            net.layers[i].activation = Activation::new(activation);
            i += 1;
        }
        assert(net.layers@ =~= orig.layers@.map_values(
            |l: NeuroLayer<S>| layer_with_activation(l, activation),
        ));
        proof {
            if orig.wf() {
                assert forall|k: int| 0 <= k < net.layers@.len() implies (#[trigger] net.layers@[
                    k
                ]).shaped(net.links(k)) by {
                    assert(orig.layers@[k].shaped(orig.links(k)));
                }
                assert(net.recorded(0, 0));
            }
        }
        net
    }

    /// The network with the last layer's activation set to `activation`; the
    /// other layers keep theirs.
    pub fn with_last_activation(self, activation: ActivationFunc) -> (r: NeuroNetwork<S>)
        requires
            self.layers@.len() > 0,
        ensures
            r.layers@ == self.layers@.update(
                self.layers@.len() - 1,
                layer_with_activation(self.layers@[self.layers@.len() - 1], activation),
            ),
            r.batch_size == self.batch_size,
            r.epoch_amount == self.epoch_amount,
            r.error_function == self.error_function,
            self.wf() ==> r.wf(),
    {
        let ghost orig = self;
        let mut net = self;
        let last = net.layers.len() - 1;
        net.layers[last].activation = Activation::new(activation);
        proof {
            if orig.wf() {
                assert forall|k: int| 0 <= k < net.layers@.len() implies (#[trigger] net.layers@[
                    k
                ]).shaped(net.links(k)) by {
                    assert(orig.layers@[k].shaped(orig.links(k)));
                }
                assert(net.recorded(0, 0));
            }
        }
        net
    }

    /// The network with its error function set to `error_func`.
    pub fn with_error(self, error_func: ErrorFunc) -> (r: NeuroNetwork<S>)
        ensures
            r == (NeuroNetwork { error_function: ErrorFunction { func: error_func }, ..self }),
    {
        NeuroNetwork { error_function: ErrorFunction::new(error_func), ..self }
    }

    /// The network with its epoch count set to `epoch_amount`.
    pub fn with_epoch(self, epoch_amount: usize) -> (r: NeuroNetwork<S>)
        ensures
            r == (NeuroNetwork { epoch_amount, ..self }),
    {
        NeuroNetwork { epoch_amount, ..self }
    }

    /// The network with its batch size set to `batch_size`.
    pub fn with_batch_size(self, batch_size: usize) -> (r: NeuroNetwork<S>)
        ensures
            r == (NeuroNetwork { batch_size, ..self }),
    {
        NeuroNetwork { batch_size, ..self }
    }
}

} // verus!
