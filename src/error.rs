use vstd::prelude::*;

use crate::types::Type;

verus! {

/// Why an inference failed.
#[derive(Debug)]
pub enum InferError {
    /// Identifiers that occur free in the expression and that the environment lacks.
    UnboundIdentifiers(Vec<String>),
    /// Two types that unification cannot make equal.
    CannotUnify(Type, Type),
    /// Constraints are left, but none can be picked.
    SolverStuck,
    /// The supply of type-variable ids ran out.
    OutOfTypeVariables,
}

} // verus!
