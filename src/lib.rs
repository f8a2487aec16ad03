//! Constraint-based type inference with let-polymorphism, after Heeren, Hage and Swierstra.
//!
//! Constraint generation walks an expression once and yields assumptions, constraints and a
//! provisionally typed tree; the solver resolves equality, explicit-instance and
//! implicit-instance constraints in a fixed order, and the final substitution is applied to
//! the typed tree.
use vstd::prelude::*;

pub mod ast;
pub mod constraints;
pub mod environment;
pub mod error;
pub mod generalize;
pub mod infer;
pub mod instantiate;
pub mod ir;
pub mod mgu;
pub mod solve;
pub mod subst;
pub mod supply;
pub mod types;

pub use ast::Ast;
pub use constraints::{Constraints, ExplicitInstance, ImplicitInstance};
pub use environment::Environment;
pub use error::InferError;
pub use generalize::generalize;
pub use infer::{infer_type, InferStep};
pub use instantiate::instantiate;
pub use ir::{Ir, TypedIr};
pub use mgu::mgu;
pub use solve::{solve, solve_step};
pub use subst::{compose, ApplySubst, Substitution};
pub use supply::{fresh_type_id, fresh_type_var, Supply};
pub use types::{FreeVars, Scheme, Type};

verus! {

} // verus!
