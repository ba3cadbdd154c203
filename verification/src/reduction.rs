//! Success and failure results of operators and evaluation steps.

use vstd::prelude::*;

use crate::cost::Cost;

verus! {

/// The success result of an operator: a cost delta and a result node.
#[derive(Debug, PartialEq, Eq)]
pub struct Reduction<T>(pub Cost, pub T);

/// The failure result: the most specific offending node and a message.
#[derive(Debug, PartialEq, Eq)]
pub struct EvalErr<T>(pub T, pub String);

/// What every operator returns.
pub type Response<T> = Result<Reduction<T>, EvalErr<T>>;

} // verus!
