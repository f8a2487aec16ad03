use vstd::prelude::*;

use crate::subst::{apply, ApplySubst, Substitution};
use crate::types::Type;

verus! {

/// The core expression language.
#[derive(Debug, PartialEq)]
pub enum Ir {
    Nop,
    LiteralStr(String),
    LiteralInt(i64),
    Id(String),
    App { e1: Box<Ir>, e2: Box<Ir> },
    Lam { binding: String, body: Box<Ir> },
    Let { e1: Box<Ir>, binding: String, e2: Box<Ir> },
    Add(Box<Ir>, Box<Ir>),
    Sequence(Box<Ir>, Box<Ir>),
}

/// An expression of the core language with a type on each node; `Add` and `Sequence` take theirs
/// from their left and right operand.
#[derive(Debug)]
pub enum TypedIr {
    Nop(Type),
    LiteralInt(i64, Type),
    LiteralStr(String, Type),
    Id(String, Type),
    App { e1: Box<TypedIr>, e2: Box<TypedIr>, ty: Type },
    Lam { binding: String, body: Box<TypedIr>, ty: Type },
    Let { e1: Box<TypedIr>, binding: String, e2: Box<TypedIr>, ty: Type },
    Add(Box<TypedIr>, Box<TypedIr>),
    Sequence(Box<TypedIr>, Box<TypedIr>),
}

/// The type of a typed node.
pub open spec fn ty_spec(te: TypedIr) -> Type
    decreases te,
{
    match te {
        TypedIr::Nop(ty) => ty,
        TypedIr::LiteralInt(_, ty) => ty,
        TypedIr::LiteralStr(_, ty) => ty,
        TypedIr::Id(_, ty) => ty,
        TypedIr::App { ty, .. } => ty,
        TypedIr::Lam { ty, .. } => ty,
        TypedIr::Let { ty, .. } => ty,
        TypedIr::Add(lhs, _) => ty_spec(*lhs),
        TypedIr::Sequence(_, rhs) => ty_spec(*rhs),
    }
}

/// `te` with `s` applied to every type in it; binders untouched.
pub open spec fn apply_typed(s: Map<u32, Type>, te: TypedIr) -> TypedIr
    decreases te,
{
    match te {
        TypedIr::Nop(ty) => TypedIr::Nop(apply(s, ty)),
        TypedIr::LiteralInt(i, ty) => TypedIr::LiteralInt(i, apply(s, ty)),
        TypedIr::LiteralStr(x, ty) => TypedIr::LiteralStr(x, apply(s, ty)),
        TypedIr::Id(x, ty) => TypedIr::Id(x, apply(s, ty)),
        TypedIr::App { e1, e2, ty } => TypedIr::App {
            e1: Box::new(apply_typed(s, *e1)),
            e2: Box::new(apply_typed(s, *e2)),
            ty: apply(s, ty),
        },
        TypedIr::Lam { binding, body, ty } => TypedIr::Lam {
            binding,
            body: Box::new(apply_typed(s, *body)),
            ty: apply(s, ty),
        },
        TypedIr::Let { e1, binding, e2, ty } => TypedIr::Let {
            e1: Box::new(apply_typed(s, *e1)),
            binding,
            e2: Box::new(apply_typed(s, *e2)),
            ty: apply(s, ty),
        },
        TypedIr::Add(lhs, rhs) => TypedIr::Add(
            Box::new(apply_typed(s, *lhs)),
            Box::new(apply_typed(s, *rhs)),
        ),
        TypedIr::Sequence(lhs, rhs) => TypedIr::Sequence(
            Box::new(apply_typed(s, *lhs)),
            Box::new(apply_typed(s, *rhs)),
        ),
    }
}

impl TypedIr {
    /// The type of this node.
    pub fn ty(&self) -> (r: &Type)
        ensures
            *r == ty_spec(*self),
        decreases self,
    {
        match self {
            TypedIr::Nop(ty) => ty,
            TypedIr::LiteralInt(_, ty) => ty,
            TypedIr::LiteralStr(_, ty) => ty,
            TypedIr::Id(_, ty) => ty,
            TypedIr::App { ty, .. } => ty,
            TypedIr::Lam { ty, .. } => ty,
            TypedIr::Let { ty, .. } => ty,
            TypedIr::Add(lhs, _) => lhs.ty(),
            TypedIr::Sequence(_, rhs) => rhs.ty(),
        }
    }

    /// A copy of this tree with `subs` applied to every type in it.
    pub fn substitute(&self, subs: &Substitution) -> (r: TypedIr)
        ensures
            r == apply_typed(subs@, *self),
        decreases self,
    {
        match self {
            TypedIr::Nop(ty) => TypedIr::Nop(ty.substitute(subs)),
            TypedIr::LiteralInt(i, ty) => TypedIr::LiteralInt(*i, ty.substitute(subs)),
            TypedIr::LiteralStr(x, ty) => TypedIr::LiteralStr(x.clone(), ty.substitute(subs)),
            TypedIr::Id(x, ty) => TypedIr::Id(x.clone(), ty.substitute(subs)),
            TypedIr::App { e1, e2, ty } => TypedIr::App {
                e1: Box::new(e1.substitute(subs)),
                e2: Box::new(e2.substitute(subs)),
                ty: ty.substitute(subs),
            },
            TypedIr::Lam { binding, body, ty } => TypedIr::Lam {
                binding: binding.clone(),
                body: Box::new(body.substitute(subs)),
                ty: ty.substitute(subs),
            },
            TypedIr::Let { e1, binding, e2, ty } => TypedIr::Let {
                e1: Box::new(e1.substitute(subs)),
                binding: binding.clone(),
                e2: Box::new(e2.substitute(subs)),
                ty: ty.substitute(subs),
            },
            TypedIr::Add(lhs, rhs) => TypedIr::Add(
                Box::new(lhs.substitute(subs)),
                Box::new(rhs.substitute(subs)),
            ),
            TypedIr::Sequence(lhs, rhs) => TypedIr::Sequence(
                Box::new(lhs.substitute(subs)),
                Box::new(rhs.substitute(subs)),
            ),
        }
    }
}

impl ApplySubst for TypedIr {
    open spec fn substituted_to(&self, s: Map<u32, Type>, after: &Self) -> bool {
        *after == apply_typed(s, *self)
    }

    fn apply_subst(&mut self, subs: &Substitution) {
        *self = self.substitute(subs);
    }
}

} // verus!
