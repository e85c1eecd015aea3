use vstd::prelude::*;
use crate::scalar::Scalar;

verus! {

/// The closed set of per-output loss terms.
#[derive(Debug, Clone, Copy, PartialEq, Eq, Structural)]
pub enum ErrorFunc {
    /// Squared error: `f(x, y) = (x - y)^2 / 2`, `df(x, y) = x - y`.
    Simple,
}

/// The tag under which an error function is persisted.
pub open spec fn error_name(e: ErrorFunc) -> Seq<char> {
    match e {
        ErrorFunc::Simple => "simple"@,
    }
}

/// The error function a persisted tag stands for, if any.
pub open spec fn error_of_name(s: Seq<char>) -> Option<ErrorFunc> {
    if s == "simple"@ {
        Some(ErrorFunc::Simple)
    } else {
        None
    }
}

/// The loss of output `x` against target `y`: `(x - y)^2 / 2`.
pub open spec fn error_value<S: Scalar>(e: ErrorFunc, x: S, y: S) -> S {
    match e {
        ErrorFunc::Simple => x.spec_minus(y).spec_times(x.spec_minus(y)).spec_divided_by(
            S::spec_from_usize(2),
        ),
    }
}

/// The derivative of the loss with respect to the output: `x - y`.
pub open spec fn error_derivative<S: Scalar>(e: ErrorFunc, x: S, y: S) -> S {
    match e {
        ErrorFunc::Simple => x.spec_minus(y),
    }
}

/// Every error-function tag reads back as the error function it was written for.
pub proof fn lemma_error_name_round_trip(e: ErrorFunc)
    ensures
        error_of_name(error_name(e)) == Some(e),
{
}

impl ErrorFunc {
    /// The persisted tag of this error function.
    pub fn get_name(&self) -> (r: String)
        ensures
            r@ == error_name(*self),
    {
        match self {
            ErrorFunc::Simple => "simple".to_owned(),
        }
    }

    /// Reads a persisted tag; `None` for a string outside the vocabulary.
    pub fn from_name(s: &str) -> (r: Option<ErrorFunc>)
        ensures
            r == error_of_name(s@),
    {
        let t = s.to_owned();
        if t == "simple".to_owned() {
            Some(ErrorFunc::Simple)
        } else {
            None
        }
    }

    /// The loss of output `x` against target `y`.
    pub fn f<S: Scalar>(&self, x: S, y: S) -> (r: S)
        ensures
            r == error_value(*self, x, y),
    {
        match self {
            ErrorFunc::Simple => {
                let d = x.minus(y);
                d.times(d).divided_by(S::from_usize(2))
            },
        }
    }

    /// The derivative of the loss with respect to the output `x`.
    pub fn df<S: Scalar>(&self, x: S, y: S) -> (r: S)
        ensures
            r == error_derivative(*self, x, y),
    {
        match self {
            ErrorFunc::Simple => x.minus(y),
        }
    }
}

impl std::str::FromStr for ErrorFunc {
    type Err = ();

    fn from_str(s: &str) -> Result<ErrorFunc, ()> {
        match ErrorFunc::from_name(s) {
            Some(e) => Ok(e),
            None => Err(()),
        }
    }
}

/// A network's error function: the tag together with its value and derivative forms.
#[derive(Debug, Clone, Copy, PartialEq, Eq, Structural)]
pub struct ErrorFunction {
    pub func: ErrorFunc,
}

impl ErrorFunction {
    pub fn new(error_func: ErrorFunc) -> (r: ErrorFunction)
        ensures
            r.func == error_func,
    {
        ErrorFunction { func: error_func }
    }

    /// The persisted tag of this error function.
    pub fn name(&self) -> (r: String)
        ensures
            r@ == error_name(self.func),
    {
        self.func.get_name()
    }

    pub fn f<S: Scalar>(&self, x: S, y: S) -> (r: S)
        ensures
            r == error_value(self.func, x, y),
    {
        self.func.f(x, y)
    }

    pub fn df<S: Scalar>(&self, x: S, y: S) -> (r: S)
        ensures
            r == error_derivative(self.func, x, y),
    {
        self.func.df(x, y)
    }
}

} // verus!
