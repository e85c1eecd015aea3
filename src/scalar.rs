use vstd::prelude::*;

verus! {

/// The number type the network computes with.
///
/// Each operation has a spec counterpart naming its result, and the
/// operation returns exactly that: an implementation only has to give the
/// same result for the same arguments. Everything the engine states about
/// values is stated over these counterparts, so it holds for every such
/// implementation.
pub trait Scalar: Copy + Sized {
    spec fn spec_zero() -> Self;

    spec fn spec_from_usize(n: usize) -> Self;

    spec fn spec_plus(self, rhs: Self) -> Self;

    spec fn spec_minus(self, rhs: Self) -> Self;

    spec fn spec_times(self, rhs: Self) -> Self;

    spec fn spec_divided_by(self, rhs: Self) -> Self;

    spec fn spec_negated(self) -> Self;

    spec fn spec_exp(self) -> Self;

    spec fn spec_tanh(self) -> Self;

    spec fn spec_sqrt(self) -> Self;

    spec fn spec_is_positive(self) -> bool;

    spec fn spec_is_zero(self) -> bool;

    spec fn spec_total_max(self, rhs: Self) -> Self;

    /// The additive identity.
    fn zero() -> (r: Self)
        ensures
            r == Self::spec_zero(),
    ;

    /// The value of a count (a batch length, a fan size, a constant).
    fn from_usize(n: usize) -> (r: Self)
        ensures
            r == Self::spec_from_usize(n),
    ;

    fn plus(self, rhs: Self) -> (r: Self)
        ensures
            r == self.spec_plus(rhs),
    ;

    fn minus(self, rhs: Self) -> (r: Self)
        ensures
            r == self.spec_minus(rhs),
    ;

    fn times(self, rhs: Self) -> (r: Self)
        ensures
            r == self.spec_times(rhs),
    ;

    fn divided_by(self, rhs: Self) -> (r: Self)
        ensures
            r == self.spec_divided_by(rhs),
    ;

    fn negated(self) -> (r: Self)
        ensures
            r == self.spec_negated(),
    ;

    /// The natural exponential.
    fn exp(self) -> (r: Self)
        ensures
            r == self.spec_exp(),
    ;

    /// The hyperbolic tangent.
    fn tanh(self) -> (r: Self)
        ensures
            r == self.spec_tanh(),
    ;

    fn sqrt(self) -> (r: Self)
        ensures
            r == self.spec_sqrt(),
    ;

    /// Whether the value is strictly greater than zero.
    fn is_positive(self) -> (r: bool)
        ensures
            r == self.spec_is_positive(),
    ;

    /// Whether the value equals zero.
    fn is_zero(self) -> (r: bool)
        ensures
            r == self.spec_is_zero(),
    ;

    /// The larger of the two values under a total order.
    fn total_max(self, rhs: Self) -> (r: Self)
        ensures
            r == self.spec_total_max(rhs),
    ;
}

/// The value one.
pub open spec fn spec_one<S: Scalar>() -> S {
    S::spec_from_usize(1)
}

/// `Σ_{j < n} x[j] · w[j]`, summed from the first term on, starting at zero.
pub open spec fn dot<S: Scalar>(w: Seq<S>, x: Seq<S>, n: int) -> S
    decreases n,
{
    if n <= 0 {
        S::spec_zero()
    } else {
        dot(w, x, n - 1).spec_plus(x[n - 1].spec_times(w[n - 1]))
    }
}

/// The source of initial weights: a uniform draw from `[-bound, bound)`.
///
/// A draw is a function of the source's state: `spec_draw` names the state
/// after the draw and the value drawn, and `draw` returns exactly that.
/// Seeding an implementation makes network construction reproducible.
pub trait WeightSource<S>: Sized {
    spec fn spec_draw(&self, bound: S) -> (Self, S);

    fn draw(&mut self, bound: S) -> (r: S)
        ensures
            (*final(self), r) == old(self).spec_draw(bound),
    ;
}

/// The value one.
pub fn one<S: Scalar>() -> (r: S)
    ensures
        r == spec_one::<S>(),
{
    S::from_usize(1)
}

/// A copy of a vector.
pub fn copy_vec<S: Copy>(v: &Vec<S>) -> (r: Vec<S>)
    ensures
        r@ == v@,
{
    let mut r: Vec<S> = Vec::with_capacity(v.len());
    let mut i: usize = 0;
    while i < v.len()
        invariant
            i <= v.len(),
            r@ == v@.subrange(0, i as int),
        decreases v.len() - i,
    {
        r.push(v[i]);
        i += 1;
        assert(r@ =~= v@.subrange(0, i as int));
    }
    assert(r@ =~= v@);
    r
}

/// The mathematical value of a matrix stored as a vector of rows.
pub open spec fn rows<S>(m: Seq<Vec<S>>) -> Seq<Seq<S>> {
    m.map_values(|row: Vec<S>| row@)
}

/// A copy of a matrix stored as a vector of rows.
pub fn copy_matrix<S: Copy>(m: &Vec<Vec<S>>) -> (r: Vec<Vec<S>>)
    ensures
        rows(r@) == rows(m@),
        r@.len() == m@.len(),
        forall|i: int| 0 <= i < m@.len() ==> (#[trigger] r@[i])@ == m@[i]@,
{
    let mut r: Vec<Vec<S>> = Vec::with_capacity(m.len());
    let mut i: usize = 0;
    while i < m.len()
        invariant
            i <= m.len(),
            r@.len() == i,
            forall|k: int| 0 <= k < i ==> (#[trigger] r@[k])@ == m@[k]@,
        decreases m.len() - i,
    {
        let row = copy_vec(&m[i]);
        r.push(row);
        i += 1;
    }
    assert(rows(r@) =~= rows(m@));
    r
}

/// A vector of `n` copies of `x`.
pub fn filled<S: Copy>(n: usize, x: S) -> (r: Vec<S>)
    ensures
        r@ == Seq::new(n as nat, |i: int| x),
{
    let mut r: Vec<S> = Vec::with_capacity(n);
    let mut i: usize = 0;
    while i < n
        invariant
            i <= n,
            r@ == Seq::new(i as nat, |k: int| x),
        decreases n - i,
    {
        r.push(x);
        i += 1;
        assert(r@ =~= Seq::new(i as nat, |k: int| x));
    }
    r
}

} // verus!
