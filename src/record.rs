use vstd::prelude::*;
use crate::activation::{
    activation_name,
    activation_of_name,
    lemma_activation_name_round_trip,
    Activation,
    ActivationFunc,
};
use crate::error_func::{error_name, error_of_name, lemma_error_name_round_trip, ErrorFunc, ErrorFunction};
use crate::neuro::{all_len, NeuroError, NeuroLayer, NeuroNetwork};
use crate::scalar::{copy_matrix, copy_vec, filled, rows, Scalar};

verus! {

/// The persisted form of a layer: its biases, its weight rows and its
/// activation tag.
#[derive(Debug)]
pub struct NeuroLayerJson<S> {
    pub basis: Vec<S>,
    pub weights: Vec<Vec<S>>,
    pub activation: String,
}

/// The persisted form of a network: its layers, its configuration and its
/// error-function tag.
#[derive(Debug)]
pub struct NeuroNetworkJson<S> {
    pub layers: Vec<NeuroLayerJson<S>>,
    pub batch_size: usize,
    pub epoch_amount: usize,
    pub error_func: String,
}

impl<S> NeuroLayerJson<S> {
    /// The record holds exactly the layer's weights, biases and activation tag.
    pub open spec fn describes(&self, l: &NeuroLayer<S>) -> bool {
        &&& rows(self.weights@) == rows(l.weights@)
        &&& self.basis@ == l.basis@
        &&& self.activation@ == activation_name(l.activation.func)
    }
}

impl<S> NeuroNetworkJson<S> {
    /// The record holds exactly the network's layers, configuration and
    /// error-function tag.
    pub open spec fn describes(&self, net: &NeuroNetwork<S>) -> bool {
        &&& self.layers@.len() == net.layers@.len()
        &&& forall|k: int|
            0 <= k < self.layers@.len() ==> (#[trigger] self.layers@[k]).describes(
                &net.layers@[k],
            )
        &&& self.batch_size == net.batch_size
        &&& self.epoch_amount == net.epoch_amount
        &&& self.error_func@ == error_name(net.error_function.func)
    }

    /// The number of weights per neuron that layer `k` must have.
    pub open spec fn links(&self, k: int) -> nat {
        if k == 0 {
            0
        } else {
            self.layers@[k - 1].basis@.len()
        }
    }

    /// At least two layers, none empty, and a positive batch size and epoch count.
    pub open spec fn well_configured(&self) -> bool {
        &&& self.layers@.len() >= 2
        &&& self.batch_size >= 1
        &&& self.epoch_amount >= 1
        &&& forall|k: int| 0 <= k < self.layers@.len() ==> (#[trigger] self.layers@[k]).basis@.len() > 0
    }

    /// Every tag is in its vocabulary.
    pub open spec fn known_tags(&self) -> bool {
        &&& error_of_name(self.error_func@) is Some
        &&& forall|k: int|
            0 <= k < self.layers@.len() ==> activation_of_name(
                (#[trigger] self.layers@[k]).activation@,
            ) is Some
    }

    /// Every layer has one weight row per bias, each with one weight per
    /// neuron of the layer before (none for the first layer).
    pub open spec fn well_shaped(&self) -> bool {
        forall|k: int|
            0 <= k < self.layers@.len() ==> {
                &&& (#[trigger] self.layers@[k]).weights@.len() == self.layers@[k].basis@.len()
                &&& all_len(self.layers@[k].weights@, self.links(k))
            }
    }
}

/// The persisted form of a layer.
pub fn neural_layer_to_json<S: Scalar>(layer: &NeuroLayer<S>) -> (r: NeuroLayerJson<S>)
    ensures
        r.describes(layer),
{
    NeuroLayerJson {
        basis: copy_vec(&layer.basis),
        weights: copy_matrix(&layer.weights),
        activation: layer.activation.name(),
    }
}

/// The persisted form of a network.
pub fn neural_to_json<S: Scalar>(net: &NeuroNetwork<S>) -> (r: NeuroNetworkJson<S>)
    ensures
        r.describes(net),
{
    let mut layers: Vec<NeuroLayerJson<S>> = Vec::with_capacity(net.layers.len());
    let mut k: usize = 0;
    while k < net.layers.len()
        invariant
            k <= net.layers@.len(),
            layers@.len() == k,
            forall|i: int| 0 <= i < k ==> (#[trigger] layers@[i]).describes(&net.layers@[i]),
        decreases net.layers@.len() - k,
    {
        layers.push(neural_layer_to_json(&net.layers[k]));
        k += 1;
    }
    NeuroNetworkJson {
        layers,
        batch_size: net.batch_size,
        epoch_amount: net.epoch_amount,
        error_func: net.error_function.name(),
    }
}

/// A layer with the record's biases, weights and activation, and no
/// recorded samples.
fn json_to_layer<S: Scalar>(j: &NeuroLayerJson<S>, activation: ActivationFunc) -> (r: NeuroLayer<S>)
    requires
        j.basis@.len() > 0,
        j.weights@.len() == j.basis@.len(),
        activation_name(activation) == j.activation@,
    ensures
        r.consistent(),
        r.idle(),
        j.describes(&r),
{
    let n = j.basis.len();
    let zero = S::zero();
    let r = NeuroLayer {
        raw_input: filled(n, zero),
        input: filled(n, zero),
        output: filled(n, zero),
        basis: copy_vec(&j.basis),
        weights: copy_matrix(&j.weights),
        grad: filled(n, zero),
        old_grads: Vec::new(),
        old_outputs: Vec::new(),
        activation: Activation::new(activation),
    };
    r
}

/// Rebuilds a network from its persisted form.
///
/// Fails with `InvalidConfiguration` when the record has fewer than two
/// layers, an empty layer, a zero batch size or a zero epoch count; else
/// with `UnknownTag` when a tag is outside its vocabulary; else with
/// `DimensionMismatch` when a layer's weights do not fit its biases and the
/// layer before.
#[verifier::loop_isolation(false)]
pub fn json_to_network<S: Scalar>(j: NeuroNetworkJson<S>) -> (r: Result<NeuroNetwork<S>, NeuroError>)
    ensures
        !j.well_configured() ==> r == Err::<NeuroNetwork<S>, NeuroError>(
            NeuroError::InvalidConfiguration,
        ),
        j.well_configured() && !j.known_tags() ==> r == Err::<NeuroNetwork<S>, NeuroError>(
            NeuroError::UnknownTag,
        ),
        j.well_configured() && j.known_tags() && !j.well_shaped() ==> r == Err::<
            NeuroNetwork<S>,
            NeuroError,
        >(NeuroError::DimensionMismatch),
        r is Ok <==> j.well_configured() && j.known_tags() && j.well_shaped(),
        r matches Ok(net) ==> net.wf() && j.describes(&net),
{
    if j.layers.len() < 2 || j.batch_size == 0 || j.epoch_amount == 0 {
        return Err(NeuroError::InvalidConfiguration);
    }
    let mut k: usize = 0;
    while k < j.layers.len()
        invariant
            k <= j.layers@.len(),
            forall|i: int| 0 <= i < k ==> (#[trigger] j.layers@[i]).basis@.len() > 0,
        decreases j.layers@.len() - k,
    {
        if j.layers[k].basis.len() == 0 {
            return Err(NeuroError::InvalidConfiguration);
        }
        k += 1;
    }
    assert(j.well_configured());
    let error_func = match ErrorFunc::from_name(j.error_func.as_str()) {
        Some(e) => e,
        None => {
            return Err(NeuroError::UnknownTag);
        },
    };
    let mut k: usize = 0;
    while k < j.layers.len()
        invariant
            k <= j.layers@.len(),
            forall|i: int|
                0 <= i < k ==> activation_of_name((#[trigger] j.layers@[i]).activation@) is Some,
        decreases j.layers@.len() - k,
    {
        if ActivationFunc::from_name(j.layers[k].activation.as_str()).is_none() {
            return Err(NeuroError::UnknownTag);
        }
        k += 1;
    }
    assert(j.known_tags());
    let mut k: usize = 0;
    while k < j.layers.len()
        invariant
            k <= j.layers@.len(),
            forall|i: int|
                0 <= i < k ==> {
                    &&& (#[trigger] j.layers@[i]).weights@.len() == j.layers@[i].basis@.len()
                    &&& all_len(j.layers@[i].weights@, j.links(i))
                },
        decreases j.layers@.len() - k,
    {
        let links = if k == 0 {
            0
        } else {
            j.layers[k - 1].basis.len()
        };
        let layer = &j.layers[k];
        if layer.weights.len() != layer.basis.len() {
            return Err(NeuroError::DimensionMismatch);
        }
        let mut i: usize = 0;
        while i < layer.weights.len()
            invariant
                i <= layer.weights@.len(),
                links == j.links(k as int),
                forall|t: int| 0 <= t < i ==> (#[trigger] layer.weights@[t])@.len() == links,
            decreases layer.weights@.len() - i,
        {
            if layer.weights[i].len() != links {
                assert(!j.well_shaped()) by {
                    assert(layer.weights@[i as int]@.len() != j.links(k as int));
                    assert(!all_len(j.layers@[k as int].weights@, j.links(k as int)));
                }
                return Err(NeuroError::DimensionMismatch);
            }
            i += 1;
        }
        k += 1;
    }
    assert(j.well_shaped());
    let mut layers: Vec<NeuroLayer<S>> = Vec::with_capacity(j.layers.len());
    let mut k: usize = 0;
    while k < j.layers.len()
        invariant
            k <= j.layers@.len(),
            j.well_configured(),
            j.known_tags(),
            j.well_shaped(),
            layers@.len() == k,
            forall|i: int|
                0 <= i < k ==> {
                    &&& (#[trigger] layers@[i]).consistent()
                    &&& layers@[i].idle()
                    &&& j.layers@[i].describes(&layers@[i])
                },
        decreases j.layers@.len() - k,
    {
        let activation = match ActivationFunc::from_name(j.layers[k].activation.as_str()) {
            Some(a) => a,
            None => {
                return Err(NeuroError::UnknownTag);
            },
        };
        proof {
            lemma_activation_name_round_trip(activation);
            lemma_activation_of_name_inverse(activation, j.layers@[k as int].activation@);
        }
        layers.push(json_to_layer(&j.layers[k], activation));
        k += 1;
    }
    proof {
        lemma_error_name_round_trip(error_func);
        lemma_error_of_name_inverse(error_func, j.error_func@);
    }
    let net = NeuroNetwork {
        layers,
        batch_size: j.batch_size,
        epoch_amount: j.epoch_amount,
        error_function: ErrorFunction::new(error_func),
    };
    assert forall|k: int| 0 <= k < net.layers@.len() implies (#[trigger] net.layers@[k]).shaped(
        net.links(k),
    ) by {
        let l = net.layers@[k];
        assert(j.layers@[k].describes(&l));
        assert forall|i: int| 0 <= i < l.weights@.len() implies (#[trigger] l.weights@[i])@.len()
            == net.links(k) by {
            assert(rows(l.weights@)[i] == l.weights@[i]@);
            assert(rows(j.layers@[k].weights@)[i] == j.layers@[k].weights@[i]@);
            if k > 0 {
                assert(j.layers@[k - 1].describes(&net.layers@[k - 1]));
            }
        }
    }
    Ok(net)
}

/// Reading back the record of a well-formed network whose batch size and
/// epoch count are positive succeeds, and gives a network with the same
/// weights, biases, activation tags, error-function tag, batch size and
/// epoch count: `back` stands for any network the record describes, which
/// is what `json_to_network` returns.
pub proof fn lemma_record_round_trip<S>(
    net: NeuroNetwork<S>,
    j: NeuroNetworkJson<S>,
    back: NeuroNetwork<S>,
)
    requires
        net.wf(),
        net.configured(),
        j.describes(&net),
        j.describes(&back),
    ensures
        j.well_configured(),
        j.known_tags(),
        j.well_shaped(),
        back.same_params(&net),
{
    assert forall|k: int| 0 <= k < j.layers@.len() implies (#[trigger] j.layers@[k]).basis@.len()
        > 0 by {
        assert(j.layers@[k].describes(&net.layers@[k]));
        assert(net.layers@[k].shaped(net.links(k)));
    }
    lemma_error_name_round_trip(net.error_function.func);
    assert forall|k: int| 0 <= k < j.layers@.len() implies activation_of_name(
        (#[trigger] j.layers@[k]).activation@,
    ) is Some by {
        assert(j.layers@[k].describes(&net.layers@[k]));
        lemma_activation_name_round_trip(net.layers@[k].activation.func);
    }
    assert forall|k: int| 0 <= k < j.layers@.len() implies {
        &&& (#[trigger] j.layers@[k]).weights@.len() == j.layers@[k].basis@.len()
        &&& all_len(j.layers@[k].weights@, j.links(k))
    } by {
        let l = net.layers@[k];
        assert(j.layers@[k].describes(&l));
        assert(l.shaped(net.links(k)));
        assert(rows(l.weights@).len() == l.weights@.len());
        assert(rows(j.layers@[k].weights@).len() == j.layers@[k].weights@.len());
        if k > 0 {
            assert(j.layers@[k - 1].describes(&net.layers@[k - 1]));
        }
        assert forall|i: int| 0 <= i < j.layers@[k].weights@.len() implies (#[trigger] j.layers@[
            k
        ].weights@[i])@.len() == j.links(k) by {
            assert(rows(l.weights@)[i] == l.weights@[i]@);
            assert(rows(j.layers@[k].weights@)[i] == j.layers@[k].weights@[i]@);
        }
    }
    assert forall|k: int| 0 <= k < back.layers@.len() implies (#[trigger] back.layers@[
        k
    ]).same_params(&net.layers@[k]) by {
        assert(j.layers@[k].describes(&net.layers@[k]));
        assert(j.layers@[k].describes(&back.layers@[k]));
        lemma_activation_name_round_trip(net.layers@[k].activation.func);
        lemma_activation_name_round_trip(back.layers@[k].activation.func);
    }
    lemma_error_name_round_trip(back.error_function.func);
}

/// A tag that reads as an activation is that activation's name.
proof fn lemma_activation_of_name_inverse(a: ActivationFunc, s: Seq<char>)
    requires
        activation_of_name(s) == Some(a),
    ensures
        activation_name(a) == s,
{
}

/// A tag that reads as an error function is that error function's name.
proof fn lemma_error_of_name_inverse(e: ErrorFunc, s: Seq<char>)
    requires
        error_of_name(s) == Some(e),
    ensures
        error_name(e) == s,
{
}

} // verus!
