use vstd::prelude::*;
use crate::scalar::{filled, one, spec_one, Scalar};

verus! {

/// The closed set of elementwise nonlinearities a layer can use.
#[derive(Debug, Clone, Copy, PartialEq, Eq, Structural)]
pub enum ActivationFunc {
    Sigmoid,
    Tanh,
    Softmax,
    Relu,
}

/// The tag under which an activation is persisted.
pub open spec fn activation_name(a: ActivationFunc) -> Seq<char> {
    match a {
        ActivationFunc::Sigmoid => "sigmoid"@,
        ActivationFunc::Tanh => "tanh"@,
        ActivationFunc::Softmax => "softmax"@,
        ActivationFunc::Relu => "relu"@,
    }
}

/// The activation a persisted tag stands for, if any.
pub open spec fn activation_of_name(s: Seq<char>) -> Option<ActivationFunc> {
    if s == "sigmoid"@ {
        Some(ActivationFunc::Sigmoid)
    } else if s == "tanh"@ {
        Some(ActivationFunc::Tanh)
    } else if s == "softmax"@ {
        Some(ActivationFunc::Softmax)
    } else if s == "relu"@ {
        Some(ActivationFunc::Relu)
    } else {
        None
    }
}

/// Every activation tag reads back as the activation it was written for.
pub proof fn lemma_activation_name_round_trip(a: ActivationFunc)
    ensures
        activation_of_name(activation_name(a)) == Some(a),
{
    reveal_strlit("sigmoid");
    reveal_strlit("tanh");
    reveal_strlit("softmax");
    reveal_strlit("relu");
    assert("softmax"@[1] != "sigmoid"@[1]);
    assert("relu"@[0] != "tanh"@[0]);
    assert("tanh"@.len() != "sigmoid"@.len());
    assert("relu"@.len() != "sigmoid"@.len());
    assert("relu"@.len() != "softmax"@.len());
    assert("tanh"@.len() != "softmax"@.len());
}

impl ActivationFunc {
    /// The persisted tag of this activation.
    pub fn get_name(&self) -> (r: String)
        ensures
            r@ == activation_name(*self),
    {
        match self {
            ActivationFunc::Sigmoid => "sigmoid".to_owned(),
            ActivationFunc::Relu => "relu".to_owned(),
            ActivationFunc::Softmax => "softmax".to_owned(),
            ActivationFunc::Tanh => "tanh".to_owned(),
        }
    }

    /// Reads a persisted tag; `None` for a string outside the vocabulary.
    pub fn from_name(s: &str) -> (r: Option<ActivationFunc>)
        ensures
            r == activation_of_name(s@),
    {
        let t = s.to_owned();
        if t == "sigmoid".to_owned() {
            Some(ActivationFunc::Sigmoid)
        } else if t == "tanh".to_owned() {
            Some(ActivationFunc::Tanh)
        } else if t == "softmax".to_owned() {
            Some(ActivationFunc::Softmax)
        } else if t == "relu".to_owned() {
            Some(ActivationFunc::Relu)
        } else {
            None
        }
    }

    /// The activation applied to a pre-activation vector.
    pub fn f<S: Scalar>(&self, v: Vec<S>) -> (r: Vec<S>)
        requires
            v@.len() > 0,
        ensures
            r@ == activation_of(*self, v@),
    {
        match self {
            ActivationFunc::Sigmoid => sigmoid(v),
            ActivationFunc::Relu => relu(v),
            ActivationFunc::Softmax => softmax(v),
            ActivationFunc::Tanh => tanh(v),
        }
    }

    /// The activation's derivative, taken at a pre-activation vector.
    pub fn df<S: Scalar>(&self, v: Vec<S>) -> (r: Vec<S>)
        requires
            v@.len() > 0,
        ensures
            r@ == activation_df_of(*self, v@),
    {
        match self {
            ActivationFunc::Sigmoid => sigmoid_df(v),
            ActivationFunc::Relu => relu_df(v),
            ActivationFunc::Softmax => softmax_df(v),
            ActivationFunc::Tanh => tanh_df(v),
        }
    }
}

impl std::str::FromStr for ActivationFunc {
    type Err = ();

    fn from_str(s: &str) -> Result<ActivationFunc, ()> {
        match ActivationFunc::from_name(s) {
            Some(a) => Ok(a),
            None => Err(()),
        }
    }
}

/// A layer's activation: the tag together with its forward and derivative forms.
#[derive(Debug, Clone, Copy, PartialEq, Eq, Structural)]
pub struct Activation {
    pub func: ActivationFunc,
}

impl Activation {
    pub fn new(activation: ActivationFunc) -> (r: Activation)
        ensures
            r.func == activation,
    {
        Activation { func: activation }
    }

    /// The persisted tag of this activation.
    pub fn name(&self) -> (r: String)
        ensures
            r@ == activation_name(self.func),
    {
        self.func.get_name()
    }

    pub fn f<S: Scalar>(&self, v: Vec<S>) -> (r: Vec<S>)
        requires
            v@.len() > 0,
        ensures
            r@ == activation_of(self.func, v@),
    {
        self.func.f(v)
    }

    pub fn df<S: Scalar>(&self, v: Vec<S>) -> (r: Vec<S>)
        requires
            v@.len() > 0,
        ensures
            r@ == activation_df_of(self.func, v@),
    {
        self.func.df(v)
    }
}

/// `1 / (1 + e^-x)`.
pub open spec fn sigmoid_of<S: Scalar>(x: S) -> S {
    spec_one::<S>().spec_divided_by(spec_one::<S>().spec_plus(x.spec_negated().spec_exp()))
}

/// `s · (1 - s)`.
pub open spec fn complement_of<S: Scalar>(s: S) -> S {
    s.spec_times(spec_one::<S>().spec_minus(s))
}

/// `1 - tanh(x)^2`.
pub open spec fn tanh_df_of<S: Scalar>(x: S) -> S {
    spec_one::<S>().spec_minus(x.spec_tanh().spec_times(x.spec_tanh()))
}

/// `x` where it is positive, else zero.
pub open spec fn relu_of<S: Scalar>(x: S) -> S {
    if x.spec_is_positive() {
        x
    } else {
        S::spec_zero()
    }
}

/// One where `x` is positive, else zero.
pub open spec fn relu_df_of<S: Scalar>(x: S) -> S {
    if x.spec_is_positive() {
        spec_one::<S>()
    } else {
        S::spec_zero()
    }
}

/// The largest of the first `n` elements (at least one), taken left to right.
pub open spec fn seq_max<S: Scalar>(v: Seq<S>, n: int) -> S
    decreases n,
{
    if n <= 1 {
        v[0]
    } else {
        seq_max(v, n - 1).spec_total_max(v[n - 1])
    }
}

/// The sum of the first `n` elements, from the first on, starting at zero.
pub open spec fn seq_sum<S: Scalar>(v: Seq<S>, n: int) -> S
    decreases n,
{
    if n <= 0 {
        S::spec_zero()
    } else {
        seq_sum(v, n - 1).spec_plus(v[n - 1])
    }
}

/// `e^(v[i] - max v)` for each element.
pub open spec fn shifted_exps<S: Scalar>(v: Seq<S>) -> Seq<S> {
    Seq::new(v.len(), |i: int| v[i].spec_minus(seq_max(v, v.len() as int)).spec_exp())
}

/// The shifted exponentials divided by their sum; all zeros where that sum is zero.
pub open spec fn softmax_of<S: Scalar>(v: Seq<S>) -> Seq<S> {
    let e = shifted_exps(v);
    let total = seq_sum(e, e.len() as int);
    if total.spec_is_zero() {
        Seq::new(v.len(), |i: int| S::spec_zero())
    } else {
        Seq::new(v.len(), |i: int| e[i].spec_divided_by(total))
    }
}

/// The activation applied to a vector.
pub open spec fn activation_of<S: Scalar>(a: ActivationFunc, v: Seq<S>) -> Seq<S> {
    match a {
        ActivationFunc::Sigmoid => Seq::new(v.len(), |i: int| sigmoid_of(v[i])),
        ActivationFunc::Tanh => Seq::new(v.len(), |i: int| v[i].spec_tanh()),
        ActivationFunc::Softmax => softmax_of(v),
        ActivationFunc::Relu => Seq::new(v.len(), |i: int| relu_of(v[i])),
    }
}

/// The activation's derivative at a vector; for Softmax, the diagonal of its Jacobian.
pub open spec fn activation_df_of<S: Scalar>(a: ActivationFunc, v: Seq<S>) -> Seq<S> {
    match a {
        ActivationFunc::Sigmoid => Seq::new(v.len(), |i: int| complement_of(sigmoid_of(v[i]))),
        ActivationFunc::Tanh => Seq::new(v.len(), |i: int| tanh_df_of(v[i])),
        ActivationFunc::Softmax => {
            let s = softmax_of(v);
            Seq::new(v.len(), |i: int| complement_of(s[i]))
        },
        ActivationFunc::Relu => Seq::new(v.len(), |i: int| relu_df_of(v[i])),
    }
}

/// `1 / (1 + e^-x)` for each element.
pub fn sigmoid<S: Scalar>(v: Vec<S>) -> (r: Vec<S>)
    ensures
        r@ == Seq::new(v@.len(), |i: int| sigmoid_of(v@[i])),
{
    let mut r: Vec<S> = Vec::with_capacity(v.len());
    let mut i: usize = 0;
    while i < v.len()
        invariant
            i <= v.len(),
            r@ == Seq::new(i as nat, |k: int| sigmoid_of(v@[k])),
        decreases v.len() - i,
    {
        let x = v[i];
        r.push(one::<S>().divided_by(one::<S>().plus(x.negated().exp())));
        i += 1;
        assert(r@ =~= Seq::new(i as nat, |k: int| sigmoid_of(v@[k])));
    }
    r
}

/// `s * (1 - s)` for each element, where `s` is the sigmoid of the element.
pub fn sigmoid_df<S: Scalar>(v: Vec<S>) -> (r: Vec<S>)
    ensures
        r@ == Seq::new(v@.len(), |i: int| complement_of(sigmoid_of(v@[i]))),
{
    let r = complement_product(sigmoid(v));
    assert(r@ =~= Seq::new(v@.len(), |i: int| complement_of(sigmoid_of(v@[i]))));
    r
}

/// `tanh(x)` for each element.
pub fn tanh<S: Scalar>(v: Vec<S>) -> (r: Vec<S>)
    ensures
        r@ == Seq::new(v@.len(), |i: int| v@[i].spec_tanh()),
{
    let mut r: Vec<S> = Vec::with_capacity(v.len());
    let mut i: usize = 0;
    while i < v.len()
        invariant
            i <= v.len(),
            r@ == Seq::new(i as nat, |k: int| v@[k].spec_tanh()),
        decreases v.len() - i,
    {
        let x = v[i];
        r.push(x.tanh());
        i += 1;
        assert(r@ =~= Seq::new(i as nat, |k: int| v@[k].spec_tanh()));
    }
    r
}

/// `1 - tanh(x)^2` for each element.
pub fn tanh_df<S: Scalar>(v: Vec<S>) -> (r: Vec<S>)
    ensures
        r@ == Seq::new(v@.len(), |i: int| tanh_df_of(v@[i])),
{
    let mut r: Vec<S> = Vec::with_capacity(v.len());
    let mut i: usize = 0;
    while i < v.len()
        invariant
            i <= v.len(),
            r@ == Seq::new(i as nat, |k: int| tanh_df_of(v@[k])),
        decreases v.len() - i,
    {
        let x = v[i];
        let t = x.tanh();
        r.push(one::<S>().minus(t.times(t)));
        i += 1;
        assert(r@ =~= Seq::new(i as nat, |k: int| tanh_df_of(v@[k])));
    }
    r
}

/// `max(x, 0)` for each element.
pub fn relu<S: Scalar>(v: Vec<S>) -> (r: Vec<S>)
    ensures
        r@ == Seq::new(v@.len(), |i: int| relu_of(v@[i])),
{
    let mut r: Vec<S> = Vec::with_capacity(v.len());
    let mut i: usize = 0;
    while i < v.len()
        invariant
            i <= v.len(),
            r@ == Seq::new(i as nat, |k: int| relu_of(v@[k])),
        decreases v.len() - i,
    {
        let x = v[i];
        if x.is_positive() {
            r.push(x);
        } else {
            r.push(S::zero());
        }
        i += 1;
        assert(r@ =~= Seq::new(i as nat, |k: int| relu_of(v@[k])));
    }
    r
}

/// `1` where the element is positive, else `0`.
pub fn relu_df<S: Scalar>(v: Vec<S>) -> (r: Vec<S>)
    ensures
        r@ == Seq::new(v@.len(), |i: int| relu_df_of(v@[i])),
{
    let mut r: Vec<S> = Vec::with_capacity(v.len());
    let mut i: usize = 0;
    while i < v.len()
        invariant
            i <= v.len(),
            r@ == Seq::new(i as nat, |k: int| relu_df_of(v@[k])),
        decreases v.len() - i,
    {
        let x = v[i];
        if x.is_positive() {
            r.push(one::<S>());
        } else {
            r.push(S::zero());
        }
        i += 1;
        assert(r@ =~= Seq::new(i as nat, |k: int| relu_df_of(v@[k])));
    }
    r
}

/// The normalized exponentials of the vector, shifted by its maximum first.
/// Where the exponentials sum to exactly zero, the result is all zeros.
pub fn softmax<S: Scalar>(v: Vec<S>) -> (r: Vec<S>)
    requires
        v@.len() > 0,
    ensures
        r@ == softmax_of(v@),
{
    let ghost e = shifted_exps(v@);
    let mut max = v[0];
    let mut i: usize = 1;
    while i < v.len()
        invariant
            1 <= i <= v.len(),
            max == seq_max(v@, i as int),
        decreases v.len() - i,
    {
        max = max.total_max(v[i]);
        i += 1;
    }
    let mut exps: Vec<S> = Vec::with_capacity(v.len());
    let mut sum = S::zero();
    let mut i: usize = 0;
    while i < v.len()
        invariant
            i <= v.len(),
            max == seq_max(v@, v@.len() as int),
            e == shifted_exps(v@),
            exps@ == e.subrange(0, i as int),
            sum == seq_sum(e, i as int),
        decreases v.len() - i,
    {
        let x = v[i].minus(max).exp();
        exps.push(x);
        sum = sum.plus(x);
        i += 1;
        assert(exps@ =~= e.subrange(0, i as int));
    }
    assert(exps@ =~= e);
    if sum.is_zero() {
        let r = filled(v.len(), S::zero());
        assert(r@ =~= softmax_of(v@));
        return r;
    }
    let mut r: Vec<S> = Vec::with_capacity(v.len());
    let mut i: usize = 0;
    while i < exps.len()
        invariant
            i <= exps.len(),
            exps@ == e,
            e.len() == v@.len(),
            r@ == Seq::new(i as nat, |k: int| e[k].spec_divided_by(sum)),
        decreases exps.len() - i,
    {
        r.push(exps[i].divided_by(sum));
        i += 1;
        assert(r@ =~= Seq::new(i as nat, |k: int| e[k].spec_divided_by(sum)));
    }
    assert(r@ =~= softmax_of(v@));
    r
}

/// `s * (1 - s)` for each element, where `s` is the softmax of the vector:
/// the diagonal of the softmax Jacobian, used as its elementwise stand-in.
pub fn softmax_df<S: Scalar>(v: Vec<S>) -> (r: Vec<S>)
    requires
        v@.len() > 0,
    ensures
        r@ == Seq::new(v@.len(), |i: int| complement_of(softmax_of(v@)[i])),
{
    let r = complement_product(softmax(v));
    assert(r@ =~= Seq::new(v@.len(), |i: int| complement_of(softmax_of(v@)[i])));
    r
}

/// `s * (1 - s)` for each element `s`.
fn complement_product<S: Scalar>(t: Vec<S>) -> (r: Vec<S>)
    ensures
        r@ == Seq::new(t@.len(), |i: int| complement_of(t@[i])),
{
    let mut r: Vec<S> = Vec::with_capacity(t.len());
    let mut i: usize = 0;
    while i < t.len()
        invariant
            i <= t.len(),
            r@ == Seq::new(i as nat, |k: int| complement_of(t@[k])),
        decreases t.len() - i,
    {
        let x = t[i];
        r.push(x.times(one::<S>().minus(x)));
        i += 1;
        assert(r@ =~= Seq::new(i as nat, |k: int| complement_of(t@[k])));
    }
    r
}

} // verus!
