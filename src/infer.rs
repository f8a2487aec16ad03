use vstd::prelude::*;

use crate::constraints::{
    empty_constraints, insert_all_new, insert_new, insert_new_explicit, merge_spec, Constraints,
    ConstraintsView, ExplicitView, ImplicitView,
};
use crate::environment::Environment;
use crate::error::InferError;
use crate::ir::apply_typed;
use crate::solve::{clean_run, lemma_solve_sound, measure, solve, solve_spec};
use crate::subst::apply;
use crate::subst::Substitution;
use crate::ir::{ty_spec, Ir, TypedIr};
use crate::supply::{fresh_type_var, Supply};
use crate::types::Type;

verus! {

/// `a` without the entries named `x`.
pub open spec fn without_name(a: Seq<(String, Type)>, x: Seq<char>) -> Seq<(String, Type)>
    decreases a.len(),
{
    if a.len() == 0 {
        a
    } else {
        let r = without_name(a.drop_last(), x);
        if a.last().0@ == x {
            r
        } else {
            r.push(a.last())
        }
    }
}

/// An equality `(t, beta)` for each entry `(x, t)` of `a`, in order.
pub open spec fn binding_eqs(a: Seq<(String, Type)>, x: Seq<char>, beta: Type) -> Seq<(Type, Type)>
    decreases a.len(),
{
    if a.len() == 0 {
        Seq::empty()
    } else {
        let r = binding_eqs(a.drop_last(), x, beta);
        if a.last().0@ == x {
            r.push((a.last().1, beta))
        } else {
            r
        }
    }
}

/// An implicit-instance constraint `(t, mono, g)` for each entry `(x, t)` of `a`, in order.
pub open spec fn binding_implicits(a: Seq<(String, Type)>, x: Seq<char>, mono: Seq<Type>, g: Type) -> Seq<
    ImplicitView,
>
    decreases a.len(),
{
    if a.len() == 0 {
        Seq::empty()
    } else {
        let r = binding_implicits(a.drop_last(), x, mono, g);
        if a.last().0@ == x {
            r.push(ImplicitView { instance: a.last().1, monomorphics: mono, to_generalize: g })
        } else {
            r
        }
    }
}

/// What generating constraints for an expression yields.
pub struct InferStep {
    /// one `(name, type)` entry per free occurrence of an identifier
    pub assumptions: Vec<(String, Type)>,
    pub constraints: Constraints,
    pub typed_expr: TypedIr,
}

pub ghost struct InferStepView {
    pub assumptions: Seq<(String, Type)>,
    pub constraints: ConstraintsView,
    pub typed_expr: TypedIr,
}

impl View for InferStep {
    type V = InferStepView;

    open spec fn view(&self) -> InferStepView {
        InferStepView {
            assumptions: self.assumptions@,
            constraints: self.constraints@,
            typed_expr: self.typed_expr,
        }
    }
}

/// A node without assumptions or constraints.
pub open spec fn leaf_view(te: TypedIr) -> InferStepView {
    InferStepView { assumptions: Seq::empty(), constraints: empty_constraints(), typed_expr: te }
}

/// An occurrence of `x` typed `beta`: one assumption, no constraint.
pub open spec fn var_view(x: String, beta: Type) -> InferStepView {
    InferStepView {
        assumptions: seq![(x, beta)],
        constraints: empty_constraints(),
        typed_expr: TypedIr::Id(x, beta),
    }
}

/// An application typed `beta`: the function's type must be a function from the argument's
/// type to `beta`.
pub open spec fn app_view(v1: InferStepView, v2: InferStepView, beta: Type) -> InferStepView {
    let c = merge_spec(v1.constraints, v2.constraints);
    InferStepView {
        assumptions: v1.assumptions + v2.assumptions,
        constraints: ConstraintsView {
            equality: insert_new(
                c.equality,
                (
                    ty_spec(v1.typed_expr),
                    Type::F(Box::new(ty_spec(v2.typed_expr)), Box::new(beta)),
                ),
            ),
            ..c
        },
        typed_expr: TypedIr::App {
            e1: Box::new(v1.typed_expr),
            e2: Box::new(v2.typed_expr),
            ty: beta,
        },
    }
}

/// A function of `x` whose parameter has type `beta`: each assumption on `x` in the body
/// becomes an equality with `beta` and is dropped.
pub open spec fn abs_view(x: String, beta: Type, body: InferStepView) -> InferStepView {
    InferStepView {
        assumptions: without_name(body.assumptions, x@),
        constraints: ConstraintsView {
            equality: insert_all_new(
                body.constraints.equality,
                binding_eqs(body.assumptions, x@, beta),
            ),
            ..body.constraints
        },
        typed_expr: TypedIr::Lam {
            binding: x,
            body: Box::new(body.typed_expr),
            ty: Type::F(Box::new(beta), Box::new(ty_spec(body.typed_expr))),
        },
    }
}

/// A `let` of `x`: each assumption on `x` in the body becomes an implicit-instance constraint
/// on the bound expression's type, and is dropped.
pub open spec fn let_view(mono: Seq<Type>, v1: InferStepView, x: String, v2: InferStepView) -> InferStepView {
    let c = merge_spec(v1.constraints, v2.constraints);
    InferStepView {
        assumptions: without_name(v2.assumptions, x@) + v1.assumptions,
        constraints: ConstraintsView {
            implicit: insert_all_new(
                c.implicit,
                binding_implicits(v2.assumptions, x@, mono, ty_spec(v1.typed_expr)),
            ),
            ..c
        },
        typed_expr: TypedIr::Let {
            e1: Box::new(v1.typed_expr),
            binding: x,
            e2: Box::new(v2.typed_expr),
            ty: ty_spec(v2.typed_expr),
        },
    }
}

/// A sum: both operands must be `Int`.
pub open spec fn add_view(l: InferStepView, r: InferStepView) -> InferStepView {
    let c = merge_spec(l.constraints, r.constraints);
    InferStepView {
        assumptions: l.assumptions + r.assumptions,
        constraints: ConstraintsView {
            equality: insert_new(
                insert_new(c.equality, (ty_spec(l.typed_expr), Type::Int)),
                (ty_spec(r.typed_expr), Type::Int),
            ),
            ..c
        },
        typed_expr: TypedIr::Add(Box::new(l.typed_expr), Box::new(r.typed_expr)),
    }
}

/// A sequence: typed by its second part.
pub open spec fn seq_view(l: InferStepView, r: InferStepView) -> InferStepView {
    InferStepView {
        assumptions: l.assumptions + r.assumptions,
        constraints: merge_spec(l.constraints, r.constraints),
        typed_expr: TypedIr::Sequence(Box::new(l.typed_expr), Box::new(r.typed_expr)),
    }
}

impl InferStep {
    /// The empty expression, of type `Nothing`.
    pub fn nop() -> (r: Self)
        ensures
            r@ == leaf_view(TypedIr::Nop(Type::Nothing)),
    {
        InferStep {
            assumptions: Vec::new(),
            constraints: Constraints::new(),
            typed_expr: TypedIr::Nop(Type::Nothing),
        }
    }

    /// An integer literal, of type `Int`.
    pub fn literal_int(i: i64) -> (r: Self)
        ensures
            r@ == leaf_view(TypedIr::LiteralInt(i, Type::Int)),
    {
        InferStep {
            assumptions: Vec::new(),
            constraints: Constraints::new(),
            typed_expr: TypedIr::LiteralInt(i, Type::Int),
        }
    }

    /// A string literal, of type `Str`.
    pub fn literal_str(s: String) -> (r: Self)
        ensures
            r@ == leaf_view(TypedIr::LiteralStr(s, Type::Str)),
    {
        InferStep {
            assumptions: Vec::new(),
            constraints: Constraints::new(),
            typed_expr: TypedIr::LiteralStr(s, Type::Str),
        }
    }

    /// An occurrence of the identifier `s`, typed by a fresh variable.
    pub fn var(s: String, supply: &mut Supply) -> (r: Self)
        requires
            old(supply).next_id() < u32::MAX,
        ensures
            r@ == var_view(s, Type::Unknown(old(supply).next_id() as u32)),
            final(supply).next_id() == old(supply).next_id() + 1,
    {
        let fresh = fresh_type_var(supply);
        let mut assumptions: Vec<(String, Type)> = Vec::new();
        assumptions.push((s.clone(), fresh.clone()));
        assert(assumptions@ =~= seq![(s, fresh)]);
        InferStep { assumptions, constraints: Constraints::new(), typed_expr: TypedIr::Id(s, fresh) }
    }

    /// An application, typed by a fresh variable that the function's type must return.
    pub fn app(infer1: Self, infer2: Self, supply: &mut Supply) -> (r: Self)
        requires
            old(supply).next_id() < u32::MAX,
        ensures
            r@ == app_view(infer1@, infer2@, Type::Unknown(old(supply).next_id() as u32)),
            final(supply).next_id() == old(supply).next_id() + 1,
    {
        let ghost v1 = infer1@;
        let ghost v2 = infer2@;
        let fresh = fresh_type_var(supply);
        let InferStep { assumptions: mut assumptions, constraints: mut constraints, typed_expr: te1 } =
            infer1;
        let InferStep { assumptions: mut a2, constraints: c2, typed_expr: te2 } = infer2;
        assumptions.append(&mut a2);
        constraints.merge(c2);
        let left = te1.ty().clone();
        let right = Type::F(Box::new(te2.ty().clone()), Box::new(fresh.clone()));
        constraints.insert_eq(left, right);
        let r = InferStep {
            assumptions,
            constraints,
            typed_expr: TypedIr::App { e1: Box::new(te1), e2: Box::new(te2), ty: fresh },
        };
        assert(r@.assumptions =~= v1.assumptions + v2.assumptions);
        r
    }

    /// A function of `binding`, whose type is `param`: each occurrence of `binding` in the body
    /// must have type `param`, and the occurrences stop being free.
    pub fn abs(binding: String, param: Type, body: Self) -> (r: Self)
        ensures
            r@ == abs_view(binding, param, body@),
    {
        let ghost vb = body@;
        let InferStep { assumptions: body_assumptions, mut constraints, typed_expr } = body;
        let mut assumptions: Vec<(String, Type)> = Vec::new();
        let mut i: usize = 0;
        while i < body_assumptions.len()
            invariant
                0 <= i <= body_assumptions.len(),
                body_assumptions@ == vb.assumptions,
                assumptions@ == without_name(vb.assumptions.take(i as int), binding@),
                constraints@ == (ConstraintsView {
                    equality: insert_all_new(
                        vb.constraints.equality,
                        binding_eqs(vb.assumptions.take(i as int), binding@, param),
                    ),
                    ..vb.constraints
                }),
            decreases body_assumptions.len() - i,
        {
            assert(vb.assumptions.take(i as int + 1).drop_last() =~= vb.assumptions.take(i as int));
            let (name, t) = &body_assumptions[i];
            if *name == binding {
                constraints.insert_eq(t.clone(), param.clone());
                assert(binding_eqs(vb.assumptions.take(i as int + 1), binding@, param).drop_last()
                    =~= binding_eqs(vb.assumptions.take(i as int), binding@, param));
            } else {
                assumptions.push((name.clone(), t.clone()));
            }
            i = i + 1;
        }
        assert(vb.assumptions.take(vb.assumptions.len() as int) =~= vb.assumptions);
        let body_ty = typed_expr.ty().clone();
        InferStep {
            assumptions,
            constraints,
            typed_expr: TypedIr::Lam {
                binding,
                body: Box::new(typed_expr),
                ty: Type::F(Box::new(param), Box::new(body_ty)),
            },
        }
    }

    /// `let binding = e1 in e2`: each occurrence of `binding` in `e2` must be an instance of
    /// the type of `e1` generalized against `monomorphic_types`.
    pub fn let_(monomorphic_types: &Vec<Type>, infer1: Self, binding: String, infer2: Self) -> (r: Self)
        ensures
            r@ == let_view(monomorphic_types@, infer1@, binding, infer2@),
    {
        let ghost v1 = infer1@;
        let ghost v2 = infer2@;
        let InferStep { assumptions: mut a1, constraints: mut constraints, typed_expr: te1 } = infer1;
        let InferStep { assumptions: a2, constraints: c2, typed_expr: te2 } = infer2;
        constraints.merge(c2);
        let ghost merged = constraints@;
        let g = te1.ty().clone();
        let mut assumptions: Vec<(String, Type)> = Vec::new();
        let mut i: usize = 0;
        while i < a2.len()
            invariant
                0 <= i <= a2.len(),
                a2@ == v2.assumptions,
                g == ty_spec(v1.typed_expr),
                assumptions@ == without_name(v2.assumptions.take(i as int), binding@),
                constraints@ == (ConstraintsView {
                    implicit: insert_all_new(
                        merged.implicit,
                        binding_implicits(v2.assumptions.take(i as int), binding@, monomorphic_types@, g),
                    ),
                    ..merged
                }),
            decreases a2.len() - i,
        {
            assert(v2.assumptions.take(i as int + 1).drop_last() =~= v2.assumptions.take(i as int));
            let (name, t) = &a2[i];
            if *name == binding {
                let mono = monomorphic_types.clone();
                assert(mono@ =~= monomorphic_types@);
                constraints.insert_implicit(t.clone(), mono, g.clone());
                assert(binding_implicits(v2.assumptions.take(i as int + 1), binding@, monomorphic_types@, g).drop_last()
                    =~= binding_implicits(v2.assumptions.take(i as int), binding@, monomorphic_types@, g));
            } else {
                assumptions.push((name.clone(), t.clone()));
            }
            i = i + 1;
        }
        assert(v2.assumptions.take(v2.assumptions.len() as int) =~= v2.assumptions);
        assumptions.append(&mut a1);
        let ty = te2.ty().clone();
        InferStep {
            assumptions,
            constraints,
            typed_expr: TypedIr::Let { e1: Box::new(te1), binding, e2: Box::new(te2), ty },
        }
    }

    /// `lhs + rhs`: both operands must be integers.
    pub fn add(lhs: Self, rhs: Self) -> (r: Self)
        ensures
            r@ == add_view(lhs@, rhs@),
    {
        let InferStep { assumptions: mut assumptions, constraints: mut constraints, typed_expr: te1 } =
            lhs;
        let InferStep { assumptions: mut a2, constraints: c2, typed_expr: te2 } = rhs;
        assumptions.append(&mut a2);
        constraints.merge(c2);
        constraints.insert_eq(te1.ty().clone(), Type::Int);
        constraints.insert_eq(te2.ty().clone(), Type::Int);
        InferStep { assumptions, constraints, typed_expr: TypedIr::Add(Box::new(te1), Box::new(te2)) }
    }

    /// `lhs; rhs`: the type is that of `rhs`.
    pub fn seq(lhs: Self, rhs: Self) -> (r: Self)
        ensures
            r@ == seq_view(lhs@, rhs@),
    {
        let InferStep { assumptions: mut assumptions, constraints: mut constraints, typed_expr: te1 } =
            lhs;
        let InferStep { assumptions: mut a2, constraints: c2, typed_expr: te2 } = rhs;
        assumptions.append(&mut a2);
        constraints.merge(c2);
        InferStep {
            assumptions,
            constraints,
            typed_expr: TypedIr::Sequence(Box::new(te1), Box::new(te2)),
        }
    }
}

/// How many fresh ids generating constraints for `e` draws.
pub open spec fn fresh_count(e: Ir) -> nat
    decreases e,
{
    match e {
        Ir::Id(_) => 1,
        Ir::App { e1, e2 } => fresh_count(*e1) + fresh_count(*e2) + 1,
        Ir::Lam { body, .. } => fresh_count(*body) + 1,
        Ir::Let { e1, e2, .. } => fresh_count(*e1) + fresh_count(*e2),
        Ir::Add(l, r) => fresh_count(*l) + fresh_count(*r),
        Ir::Sequence(l, r) => fresh_count(*l) + fresh_count(*r),
        _ => 0,
    }
}

/// What generating constraints for `e` in the monomorphic context `mono` yields, with `next`
/// the next fresh id, and the next fresh id afterwards.
pub open spec fn gen_spec(mono: Seq<Type>, e: Ir, next: nat) -> (InferStepView, nat)
    decreases e,
{
    match e {
        Ir::Nop => (leaf_view(TypedIr::Nop(Type::Nothing)), next),
        Ir::LiteralInt(i) => (leaf_view(TypedIr::LiteralInt(i, Type::Int)), next),
        Ir::LiteralStr(x) => (leaf_view(TypedIr::LiteralStr(x, Type::Str)), next),
        Ir::Id(x) => (var_view(x, Type::Unknown(next as u32)), next + 1),
        Ir::App { e1, e2 } => {
            let (v1, n1) = gen_spec(mono, *e1, next);
            let (v2, n2) = gen_spec(mono, *e2, n1);
            (app_view(v1, v2, Type::Unknown(n2 as u32)), n2 + 1)
        },
        Ir::Lam { binding, body } => {
            let beta = Type::Unknown(next as u32);
            let (vb, n1) = gen_spec(mono.push(beta), *body, next + 1);
            (abs_view(binding, beta, vb), n1)
        },
        Ir::Let { e1, binding, e2 } => {
            let (v1, n1) = gen_spec(mono, *e1, next);
            let (v2, n2) = gen_spec(mono, *e2, n1);
            (let_view(mono, v1, binding, v2), n2)
        },
        Ir::Add(l, r) => {
            let (v1, n1) = gen_spec(mono, *l, next);
            let (v2, n2) = gen_spec(mono, *r, n1);
            (add_view(v1, v2), n2)
        },
        Ir::Sequence(l, r) => {
            let (v1, n1) = gen_spec(mono, *l, next);
            let (v2, n2) = gen_spec(mono, *r, n1);
            (seq_view(v1, v2), n2)
        },
    }
}

/// Generation draws exactly `fresh_count(e)` ids.
pub proof fn lemma_gen_next(mono: Seq<Type>, e: Ir, next: nat)
    ensures
        gen_spec(mono, e, next).1 == next + fresh_count(e),
    decreases e,
{
    match e {
        Ir::App { e1, e2 } => {
            lemma_gen_next(mono, *e1, next);
            lemma_gen_next(mono, *e2, next + fresh_count(*e1));
        },
        Ir::Lam { binding, body } => {
            lemma_gen_next(mono.push(Type::Unknown(next as u32)), *body, next + 1);
        },
        Ir::Let { e1, binding, e2 } => {
            lemma_gen_next(mono, *e1, next);
            lemma_gen_next(mono, *e2, next + fresh_count(*e1));
        },
        Ir::Add(l, r) => {
            lemma_gen_next(mono, *l, next);
            lemma_gen_next(mono, *r, next + fresh_count(*l));
        },
        Ir::Sequence(l, r) => {
            lemma_gen_next(mono, *l, next);
            lemma_gen_next(mono, *r, next + fresh_count(*l));
        },
        _ => {},
    }
}

/// One more than the largest id: a count at least this large cannot be drawn.
pub const ID_LIMIT: u64 = 0x1_0000_0000;

/// `fresh_count(e)`, or `ID_LIMIT` where it is at least that.
pub fn fresh_needed(e: &Ir) -> (r: u64)
    ensures
        r <= ID_LIMIT,
        r < ID_LIMIT ==> r == fresh_count(*e),
        r == ID_LIMIT ==> fresh_count(*e) >= ID_LIMIT,
    decreases e,
{
    let (a, b, own): (u64, u64, u64) = match e {
        Ir::Id(_) => (0, 0, 1),
        Ir::App { e1, e2 } => (fresh_needed(e1), fresh_needed(e2), 1),
        Ir::Lam { body, .. } => (fresh_needed(body), 0, 1),
        Ir::Let { e1, e2, .. } => (fresh_needed(e1), fresh_needed(e2), 0),
        Ir::Add(l, r) => (fresh_needed(l), fresh_needed(r), 0),
        Ir::Sequence(l, r) => (fresh_needed(l), fresh_needed(r), 0),
        _ => (0, 0, 0),
    };
    if a + b + own >= ID_LIMIT {
        ID_LIMIT
    } else {
        a + b + own
    }
}

/// Generates the constraints for `expr` in the monomorphic context `monomorphic_types`.
pub fn infer_type_(monomorphic_types: &Vec<Type>, expr: Ir, supply: &mut Supply) -> (r: InferStep)
    requires
        old(supply).next_id() + fresh_count(expr) <= u32::MAX,
    ensures
        (r@, final(supply).next_id()) == gen_spec(monomorphic_types@, expr, old(supply).next_id()),
    decreases expr,
{
    proof {
        lemma_gen_next(monomorphic_types@, expr, supply.next_id());
    }
    match expr {
        Ir::Nop => InferStep::nop(),
        Ir::LiteralInt(i) => InferStep::literal_int(i),
        Ir::LiteralStr(s) => InferStep::literal_str(s),
        Ir::Id(s) => InferStep::var(s, supply),
        Ir::App { e1, e2 } => {
            proof {
                lemma_gen_next(monomorphic_types@, *e1, supply.next_id());
            }
            let infer1 = infer_type_(monomorphic_types, *e1, supply);
            let infer2 = infer_type_(monomorphic_types, *e2, supply);
            InferStep::app(infer1, infer2, supply)
        },
        Ir::Lam { binding, body } => {
            let param = fresh_type_var(supply);
            let mut inner = monomorphic_types.clone();
            inner.push(param.clone());
            assert(inner@ =~= monomorphic_types@.push(param));
            let body = infer_type_(&inner, *body, supply);
            InferStep::abs(binding, param, body)
        },
        Ir::Let { e1, binding, e2 } => {
            proof {
                lemma_gen_next(monomorphic_types@, *e1, supply.next_id());
            }
            let infer1 = infer_type_(monomorphic_types, *e1, supply);
            let infer2 = infer_type_(monomorphic_types, *e2, supply);
            InferStep::let_(monomorphic_types, infer1, binding, infer2)
        },
        Ir::Add(lhs, rhs) => {
            proof {
                lemma_gen_next(monomorphic_types@, *lhs, supply.next_id());
            }
            let lhs = infer_type_(monomorphic_types, *lhs, supply);
            let rhs = infer_type_(monomorphic_types, *rhs, supply);
            InferStep::add(lhs, rhs)
        },
        Ir::Sequence(lhs, rhs) => {
            proof {
                lemma_gen_next(monomorphic_types@, *lhs, supply.next_id());
            }
            let lhs = infer_type_(monomorphic_types, *lhs, supply);
            let rhs = infer_type_(monomorphic_types, *rhs, supply);
            InferStep::seq(lhs, rhs)
        },
    }
}

/// `c` with an explicit-instance constraint `(t, σ)` added for each assumption `(x, t)` of `a`
/// whose `x` the environment gives the scheme `σ`, in order.
pub open spec fn with_environment(env: Environment, a: Seq<(String, Type)>, c: ConstraintsView) -> ConstraintsView
    decreases a.len(),
{
    if a.len() == 0 {
        c
    } else {
        let r = with_environment(env, a.drop_last(), c);
        match env.scheme_of(a.last().0@) {
            Some(sc) => ConstraintsView {
                explicit: insert_new_explicit(r.explicit, ExplicitView { instance: a.last().1, scheme: sc }),
                ..r
            },
            None => r,
        }
    }
}

/// The names of the assumptions of `a` that the environment lacks, one per assumption.
pub open spec fn unbound_names(env: Environment, a: Seq<(String, Type)>) -> Seq<Seq<char>>
    decreases a.len(),
{
    if a.len() == 0 {
        Seq::empty()
    } else {
        let r = unbound_names(env, a.drop_last());
        match env.scheme_of(a.last().0@) {
            Some(_) => r,
            None => r.push(a.last().0@),
        }
    }
}

/// Infers the type of every node of `expr`, with `environment` giving the schemes of its
/// free identifiers: generates constraints, solves them, and applies the final substitution
/// to the typed tree. Returns the substitution and the typed tree.
pub fn infer_type(environment: &Environment, expr: Ir, supply: &mut Supply) -> (r: Result<
    (Substitution, TypedIr),
    InferError,
>)
    ensures
        final(supply).next_id() >= old(supply).next_id(),
        old(supply).next_id() + fresh_count(expr) > u32::MAX ==> r matches Err(
            InferError::OutOfTypeVariables,
        ),
        old(supply).next_id() + fresh_count(expr) <= u32::MAX ==> ({
            let (generated, next) = gen_spec(Seq::empty(), expr, old(supply).next_id());
            let unbound = unbound_names(*environment, generated.assumptions);
            if unbound.len() > 0 {
                r matches Err(InferError::UnboundIdentifiers(names)) && names@.map_values(
                    |n: String| n@,
                ) == unbound
            } else {
                match solve_spec(
                    with_environment(*environment, generated.assumptions, generated.constraints),
                    next,
                ) {
                    Ok((s, n)) => {
                        &&& r matches Ok((sub, typed)) && sub@ == s && typed == apply_typed(
                            s,
                            generated.typed_expr,
                        )
                        &&& final(supply).next_id() == n
                    },
                    Err(e) => r matches Err(e2) && e2 == e,
                }
            }
        }),
{
    let needed = fresh_needed(&expr);
    if !supply.has_room(needed) {
        return Err(InferError::OutOfTypeVariables);
    }
    proof {
        lemma_gen_next(Seq::empty(), expr, supply.next_id());
    }
    let top: Vec<Type> = Vec::new();
    assert(top@ =~= Seq::<Type>::empty());
    let InferStep { assumptions, mut constraints, typed_expr } = infer_type_(&top, expr, supply);
    let ghost generated = constraints@;
    let mut ids: Vec<String> = Vec::new();
    let mut i: usize = 0;
    while i < assumptions.len()
        invariant
            0 <= i <= assumptions.len(),
            constraints@ == with_environment(
                *environment,
                assumptions@.take(i as int),
                generated,
            ),
            ids@.map_values(|n: String| n@) == unbound_names(*environment, assumptions@.take(i as int)),
        decreases assumptions.len() - i,
    {
        assert(assumptions@.take(i as int + 1).drop_last() =~= assumptions@.take(i as int));
        let (name, t) = &assumptions[i];
        match environment.get(name) {
            Some(s) => {
                constraints.insert_explicit(t.clone(), s.clone());
            },
            None => {
                let ghost before = ids@;
                ids.push(name.clone());
                assert(ids@.map_values(|n: String| n@) =~= before.map_values(|n: String| n@).push(
                    name@,
                ));
            },
        }
        i = i + 1;
    }
    assert(assumptions@.take(assumptions.len() as int) =~= assumptions@);
    if ids.len() > 0 {
        return Err(InferError::UnboundIdentifiers(ids));
    }
    let substitutions = solve(constraints, supply)?;
    let typed_expr = typed_expr.substitute(&substitutions);
    Ok((substitutions, typed_expr))
}

/// Adding the environment's explicit-instance constraints leaves the equalities alone.
pub proof fn lemma_with_environment_equality(env: Environment, a: Seq<(String, Type)>, c: ConstraintsView)
    ensures
        with_environment(env, a, c).equality == c.equality,
    decreases a.len(),
{
    if a.len() > 0 {
        lemma_with_environment_equality(env, a.drop_last(), c);
    }
}

/// The constraints that `infer_type` hands to the solver.
pub open spec fn solver_input(env: Environment, expr: Ir, next: nat) -> ConstraintsView {
    let generated = gen_spec(Seq::empty(), expr, next).0;
    with_environment(env, generated.assumptions, generated.constraints)
}

/// When every unification of the solver's run is clean, the substitution that `infer_type`
/// returns makes both sides of every equality constraint that generation produced equal.
pub proof fn lemma_infer_sound(env: Environment, expr: Ir, next: nat, k: int)
    requires
        solve_spec(solver_input(env, expr, next), gen_spec(Seq::empty(), expr, next).1) is Ok,
        clean_run(
            solver_input(env, expr, next),
            Map::empty(),
            gen_spec(Seq::empty(), expr, next).1,
            measure(solver_input(env, expr, next)),
        ),
        0 <= k < gen_spec(Seq::empty(), expr, next).0.constraints.equality.len(),
    ensures
        ({
            let s = solve_spec(solver_input(env, expr, next), gen_spec(Seq::empty(), expr, next).1)->Ok_0.0;
            let e = gen_spec(Seq::empty(), expr, next).0.constraints.equality[k];
            apply(s, e.0) == apply(s, e.1)
        }),
{
    let generated = gen_spec(Seq::empty(), expr, next).0;
    lemma_with_environment_equality(env, generated.assumptions, generated.constraints);
    lemma_solve_sound(solver_input(env, expr, next), gen_spec(Seq::empty(), expr, next).1, k);
}

} // verus!
