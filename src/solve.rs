use vstd::prelude::*;

use crate::constraints::{
    active_vars_spec, apply_constraints, apply_equalities, apply_explicit, apply_implicit, eligible,
    eq_active, explicit_active, first_eligible, implicit_active, insert_new, insert_new_explicit,
    is_empty_spec, lemma_insert_all_new, lemma_insert_all_new_explicit, same_explicit, Constraints,
    ConstraintsView, ExplicitView, ImplicitView,
};
use crate::error::InferError;
use crate::generalize::{generalize, generalized_ids, lemma_keep_outside};
use crate::instantiate::{instantiate, instantiate_spec, lemma_instantiate_free};
use crate::mgu::{
    lemma_mgu_idempotent, lemma_mgu_unifies, lemma_mgu_vars, mgu, mgu_spec, unifies_independently,
    vars2,
};
use crate::subst::{
    apply, apply_seq, compose, compose_spec, lemma_apply_idempotent, lemma_apply_unbound,
    lemma_compose_apply, lemma_free_apply, ApplySubst, Substitution,
};
use crate::supply::Supply;
use crate::types::{free, free_list, free_seq, lemma_free_list, scheme_free, SchemeView, Type};

verus! {

/// One solver step on constraints `c`, with substitution `subs` found so far and `next` the
/// next fresh id: the new constraints, substitution and next fresh id, or the failure.
pub open spec fn step_spec(c: ConstraintsView, subs: Map<u32, Type>, next: nat) -> Result<
    (ConstraintsView, Map<u32, Type>, nat),
    InferError,
> {
    if c.equality.len() > 0 {
        let p = c.equality[0];
        match mgu_spec(p.0, p.1) {
            Ok(s) => Ok(
                (
                    apply_constraints(s, ConstraintsView { equality: c.equality.remove(0), ..c }),
                    compose_spec(s, subs),
                    next,
                ),
            ),
            Err((a, b)) => Err(InferError::CannotUnify(a, b)),
        }
    } else if c.explicit.len() > 0 {
        let e = c.explicit[0];
        let q = e.scheme.quantified;
        if next + q.len() > u32::MAX {
            Err(InferError::OutOfTypeVariables)
        } else {
            Ok(
                (
                    ConstraintsView {
                        equality: insert_new(
                            c.equality,
                            (e.instance, instantiate_spec(q, e.scheme.body, next)),
                        ),
                        explicit: c.explicit.remove(0),
                        ..c
                    },
                    subs,
                    next + q.len(),
                ),
            )
        }
    } else if exists|j: int| first_eligible(c, j) {
        let j = choose|j: int| first_eligible(c, j);
        let i = c.implicit[j];
        let scheme = SchemeView {
            quantified: generalized_ids(i.to_generalize, free_seq(i.monomorphics)),
            body: i.to_generalize,
        };
        Ok(
            (
                ConstraintsView {
                    explicit: insert_new_explicit(
                        c.explicit,
                        ExplicitView { instance: i.instance, scheme },
                    ),
                    implicit: c.implicit.remove(j),
                    ..c
                },
                subs,
                next,
            ),
        )
    } else {
        Err(InferError::SolverStuck)
    }
}

/// A bound on the number of steps left: each step lowers it by one.
pub open spec fn measure(c: ConstraintsView) -> nat {
    3 * c.implicit.len() + 2 * c.explicit.len() + c.equality.len()
}

/// Runs solver steps until no constraint is left, at most `fuel` of them.
pub open spec fn solve_run(c: ConstraintsView, subs: Map<u32, Type>, next: nat, fuel: nat) -> Result<
    (Map<u32, Type>, nat),
    InferError,
>
    decreases fuel,
{
    if is_empty_spec(c) {
        Ok((subs, next))
    } else if fuel == 0 {
        Err(InferError::SolverStuck)
    } else {
        match step_spec(c, subs, next) {
            Ok((c2, s2, n2)) => solve_run(c2, s2, n2, (fuel - 1) as nat),
            Err(e) => Err(e),
        }
    }
}

/// The final substitution and next fresh id of solving `c` from the empty substitution.
pub open spec fn solve_spec(c: ConstraintsView, next: nat) -> Result<(Map<u32, Type>, nat), InferError> {
    solve_run(c, Map::empty(), next, measure(c))
}

/// Each step lowers the measure.
pub proof fn lemma_step_measure(c: ConstraintsView, subs: Map<u32, Type>, next: nat)
    requires
        step_spec(c, subs, next) is Ok,
    ensures
        measure(step_spec(c, subs, next)->Ok_0.0) < measure(c),
{
    if c.equality.len() > 0 {
        let p = c.equality[0];
        let s = mgu_spec(p.0, p.1)->Ok_0;
        let rest = ConstraintsView { equality: c.equality.remove(0), ..c };
        lemma_insert_all_new(Seq::empty(), apply_equalities(s, rest.equality));
        lemma_insert_all_new_explicit(
            Seq::empty(),
            rest.explicit.map_values(|e: ExplicitView| apply_explicit(s, e)),
        );
        lemma_insert_all_new(
            Seq::empty(),
            rest.implicit.map_values(|i: ImplicitView| apply_implicit(s, i)),
        );
    }
}

/// A run with more fuel than the measure ends as the run with the measure as fuel.
pub proof fn lemma_run_fuel(c: ConstraintsView, subs: Map<u32, Type>, next: nat, fuel: nat)
    requires
        fuel >= measure(c),
    ensures
        solve_run(c, subs, next, fuel) == solve_run(c, subs, next, measure(c)),
    decreases fuel,
{
    if !is_empty_spec(c) {
        if step_spec(c, subs, next) is Ok {
            let (c2, s2, n2) = step_spec(c, subs, next)->Ok_0;
            lemma_step_measure(c, subs, next);
            lemma_run_fuel(c2, s2, n2, (fuel - 1) as nat);
            lemma_run_fuel(c2, s2, n2, (measure(c) - 1) as nat);
        }
    }
}

/// Performs one solver step on `cs`, in the fixed priority order: an equality constraint is
/// unified, else an explicit-instance constraint instantiated, else an eligible
/// implicit-instance constraint generalized. Returns the substitution composed so far.
pub fn solve_step(cs: &mut Constraints, subs: Substitution, supply: &mut Supply) -> (r: Result<
    Substitution,
    InferError,
>)
    requires
        !is_empty_spec(old(cs)@),
    ensures
        final(supply).next_id() >= old(supply).next_id(),
        match step_spec(old(cs)@, subs@, old(supply).next_id()) {
            Ok((c2, s2, n2)) => {
                &&& r matches Ok(s) && s@ == s2
                &&& final(cs)@ == c2
                &&& final(supply).next_id() == n2
            },
            Err(e) => r matches Err(e2) && e2 == e,
        },
{
    proof {
        use_type_invariant(&*cs);
    }
    let ghost c = cs@;
    if let Some(eq) = cs.next_eq() {
        cs.remove_eq(&eq);
        assert(cs@ == ConstraintsView { equality: c.equality.remove(0), ..c });
        let s = mgu(&eq.0, &eq.1)?;
        cs.apply_subst(&s);
        Ok(compose(s, subs))
    } else if let Some(exp) = cs.next_explicit() {
        cs.remove_exp(&exp);
        assert(same_explicit(c.explicit[0], exp@));
        assert(cs@ == ConstraintsView { explicit: c.explicit.remove(0), ..c });
        if !supply.has_room(exp.scheme.quantified.len() as u64) {
            return Err(InferError::OutOfTypeVariables);
        }
        let t2 = instantiate(&exp.scheme.quantified, &exp.scheme.body, supply);
        cs.insert_eq(exp.instance, t2);
        Ok(subs)
    } else if let Some(imp) = cs.next_implicit() {
        let ghost j = choose|j: int| first_eligible(c, j) && imp@ == c.implicit[j];
        proof {
            let j2 = choose|j: int| first_eligible(c, j);
            assert(j2 == j) by {
                if j2 < j {
                    assert(!eligible(c, j2));
                }
                if j < j2 {
                    assert(!eligible(c, j));
                }
            }
        }
        cs.remove_imp(&imp);
        assert(cs@ == ConstraintsView { implicit: c.implicit.remove(j), ..c });
        let scheme = generalize(&imp.monomorphics, &imp.to_generalize);
        cs.insert_explicit(imp.instance, scheme);
        Ok(subs)
    } else {
        Err(InferError::SolverStuck)
    }
}

/// Solves a set of constraints: runs solver steps until none is left.
pub fn solve(constraints: Constraints, supply: &mut Supply) -> (r: Result<Substitution, InferError>)
    ensures
        final(supply).next_id() >= old(supply).next_id(),
        match solve_spec(constraints@, old(supply).next_id()) {
            Ok((s, n)) => r matches Ok(sub) && sub@ == s && final(supply).next_id() == n,
            Err(e) => r matches Err(e2) && e2 == e,
        },
{
    let ghost goal = solve_spec(constraints@, supply.next_id());
    let mut cs = constraints;
    let mut subs = Substitution::new();
    while !cs.is_empty()
        invariant
            goal == solve_spec(constraints@, old(supply).next_id()),
            supply.next_id() >= old(supply).next_id(),
            solve_run(cs@, subs@, supply.next_id(), measure(cs@)) == goal,
        decreases measure(cs@),
    {
        let ghost before = cs@;
        let ghost before_subs = subs@;
        let ghost before_next = supply.next_id();
        proof {
            if step_spec(before, before_subs, before_next) is Ok {
                let (c2, s2, n2) = step_spec(before, before_subs, before_next)->Ok_0;
                lemma_step_measure(before, before_subs, before_next);
                lemma_run_fuel(c2, s2, n2, (measure(before) - 1) as nat);
            }
        }
        assert(measure(before) > 0);
        match solve_step(&mut cs, subs, supply) {
            Ok(next_subs) => {
                subs = next_subs;
            },
            Err(e) => {
                assert(step_spec(before, before_subs, before_next) is Err);
                assert(goal == Err::<(Map<u32, Type>, nat), InferError>(e));
                return Err(e);
            },
        }
    }
    Ok(subs)
}

/// `x`, a variable of `apply(s, t)`, is a variable of `t` that `s` leaves alone, or lies in
/// `range`, which holds the variables of every value of `s`.
proof fn lemma_free_apply_within(s: Map<u32, Type>, t: Type, range: Set<u32>, x: u32)
    requires
        free(apply(s, t)).contains(x),
        forall|k: u32| #[trigger] s.contains_key(k) ==> free(s[k]).subset_of(range),
    ensures
        (free(t).contains(x) && !s.contains_key(x)) || range.contains(x),
{
    lemma_free_apply(s, t, x);
    if !(free(t).contains(x) && !s.contains_key(x)) {
        let k = choose|k: u32| free(t).contains(k) && s.contains_key(k) && #[trigger] free(s[k]).contains(x);
    }
}

/// Where the constraints after an equality step come from: each is the image under `s` of a
/// constraint of `c` other than the equality that was solved, and each such image is there.
proof fn lemma_eq_step_sources(c: ConstraintsView, s: Map<u32, Type>)
    requires
        c.equality.len() > 0,
    ensures
        ({
            let c2 = apply_constraints(s, ConstraintsView { equality: c.equality.remove(0), ..c });
            &&& forall|k: int|
                0 <= k < c2.equality.len() ==> exists|m: int|
                    1 <= m < c.equality.len() && #[trigger] c2.equality[k] == (
                        apply(s, c.equality[m].0),
                        apply(s, c.equality[m].1),
                    )
            &&& forall|k: int|
                0 <= k < c2.explicit.len() ==> exists|m: int|
                    0 <= m < c.explicit.len() && #[trigger] c2.explicit[k] == apply_explicit(s, c.explicit[m])
            &&& forall|k: int|
                0 <= k < c2.implicit.len() ==> exists|m: int|
                    0 <= m < c.implicit.len() && #[trigger] c2.implicit[k] == apply_implicit(s, c.implicit[m])
            &&& forall|m: int|
                1 <= m < c.equality.len() ==> c2.equality.contains(
                    (apply(s, #[trigger] c.equality[m].0), apply(s, c.equality[m].1)),
                )
        }),
{
    let rest = ConstraintsView { equality: c.equality.remove(0), ..c };
    let c2 = apply_constraints(s, rest);
    let eqs = apply_equalities(s, rest.equality);
    let exps = rest.explicit.map_values(|e: ExplicitView| apply_explicit(s, e));
    let imps = rest.implicit.map_values(|i: ImplicitView| apply_implicit(s, i));
    lemma_insert_all_new(Seq::empty(), eqs);
    lemma_insert_all_new_explicit(Seq::empty(), exps);
    lemma_insert_all_new(Seq::empty(), imps);
    assert forall|k: int| 0 <= k < c2.equality.len() implies exists|m: int|
        1 <= m < c.equality.len() && #[trigger] c2.equality[k] == (
            apply(s, c.equality[m].0),
            apply(s, c.equality[m].1),
        ) by {
        assert(c2.equality.contains(c2.equality[k]));
        let m = choose|m: int| 0 <= m < eqs.len() && eqs[m] == c2.equality[k];
        assert(rest.equality[m] == c.equality[m + 1]);
    }
    assert forall|k: int| 0 <= k < c2.explicit.len() implies exists|m: int|
        0 <= m < c.explicit.len() && #[trigger] c2.explicit[k] == apply_explicit(s, c.explicit[m]) by {
        assert(c2.explicit.contains(c2.explicit[k]));
        let m = choose|m: int| 0 <= m < exps.len() && exps[m] == c2.explicit[k];
    }
    assert forall|k: int| 0 <= k < c2.implicit.len() implies exists|m: int|
        0 <= m < c.implicit.len() && #[trigger] c2.implicit[k] == apply_implicit(s, c.implicit[m]) by {
        assert(c2.implicit.contains(c2.implicit[k]));
        let m = choose|m: int| 0 <= m < imps.len() && imps[m] == c2.implicit[k];
    }
    assert forall|m: int| 1 <= m < c.equality.len() implies c2.equality.contains(
        (apply(s, #[trigger] c.equality[m].0), apply(s, c.equality[m].1)),
    ) by {
        assert(eqs[m - 1] == (apply(s, c.equality[m].0), apply(s, c.equality[m].1)));
    }
}

/// A solver step activates no variable that was not active before, but for the fresh ids
/// that it draws: a step that draws none does not let the active variables grow.
pub proof fn lemma_step_active_vars(c: ConstraintsView, subs: Map<u32, Type>, next: nat)
    requires
        step_spec(c, subs, next) is Ok,
    ensures
        forall|x: u32|
            #![trigger active_vars_spec(step_spec(c, subs, next)->Ok_0.0).contains(x)]
            active_vars_spec(step_spec(c, subs, next)->Ok_0.0).contains(x) ==> active_vars_spec(
                c,
            ).contains(x) || (next <= x < step_spec(c, subs, next)->Ok_0.2),
{
    let (c2, s2, n2) = step_spec(c, subs, next)->Ok_0;
    if c.equality.len() > 0 {
        let p = c.equality[0];
        let s = mgu_spec(p.0, p.1)->Ok_0;
        let range = eq_active(p);
        lemma_mgu_vars(p.0, p.1);
        lemma_eq_step_sources(c, s);
        assert forall|x: u32| active_vars_spec(c2).contains(x) implies active_vars_spec(c).contains(x) by {
            assert(eq_active(c.equality[0]).contains(x) ==> active_vars_spec(c).contains(x));
            if exists|k: int| 0 <= k < c2.equality.len() && #[trigger] eq_active(c2.equality[k]).contains(x) {
                let k = choose|k: int| 0 <= k < c2.equality.len() && #[trigger] eq_active(c2.equality[k]).contains(x);
                let m = choose|m: int| 1 <= m < c.equality.len() && #[trigger] c2.equality[k] == (
                    apply(s, c.equality[m].0),
                    apply(s, c.equality[m].1),
                );
                let q = c.equality[m];
                if free(apply(s, q.0)).contains(x) {
                    lemma_free_apply_within(s, q.0, range, x);
                } else {
                    lemma_free_apply_within(s, q.1, range, x);
                }
                assert(eq_active(c.equality[m]).contains(x) || range.contains(x));
            } else if exists|k: int| 0 <= k < c2.explicit.len() && #[trigger] explicit_active(c2.explicit[k]).contains(x) {
                let k = choose|k: int| 0 <= k < c2.explicit.len() && #[trigger] explicit_active(c2.explicit[k]).contains(x);
                let m = choose|m: int|
                    0 <= m < c.explicit.len() && #[trigger] c2.explicit[k] == apply_explicit(s, c.explicit[m]);
                let e = c.explicit[m];
                if free(apply(s, e.instance)).contains(x) {
                    lemma_free_apply_within(s, e.instance, range, x);
                } else {
                    lemma_free_apply_within(s, e.scheme.body, range, x);
                }
                assert(explicit_active(c.explicit[m]).contains(x) || range.contains(x));
            } else {
                let k = choose|k: int| 0 <= k < c2.implicit.len() && k != -1 && #[trigger] implicit_active(c2.implicit[k]).contains(x);
                let mi = choose|m: int|
                    0 <= m < c.implicit.len() && #[trigger] c2.implicit[k] == apply_implicit(s, c.implicit[m]);
                let i = c.implicit[mi];
                if free(apply(s, i.instance)).contains(x) {
                    lemma_free_apply_within(s, i.instance, range, x);
                } else {
                    lemma_free_apply_within(s, i.to_generalize, range, x);
                    let ms = apply_seq(s, i.monomorphics);
                    assert(free_seq(ms).contains(x));
                    let m = choose|m: int| 0 <= m < ms.len() && #[trigger] free(ms[m]).contains(x);
                    lemma_free_apply_within(s, i.monomorphics[m], range, x);
                    if free(i.monomorphics[m]).contains(x) {
                        assert(free_seq(i.monomorphics).contains(x));
                    }
                }
                assert(implicit_active(c.implicit[mi]).contains(x) || range.contains(x));
            }
        }
    } else if c.explicit.len() > 0 {
        let e = c.explicit[0];
        let q = e.scheme.quantified;
        assert forall|x: u32| active_vars_spec(c2).contains(x) implies active_vars_spec(c).contains(x)
            || (next <= x < n2) by {
            assert(explicit_active(c.explicit[0]).contains(x) ==> active_vars_spec(c).contains(x));
            if exists|k: int| 0 <= k < c2.equality.len() && #[trigger] eq_active(c2.equality[k]).contains(x) {
                let k = choose|k: int| 0 <= k < c2.equality.len() && #[trigger] eq_active(c2.equality[k]).contains(x);
                assert(k == 0);
                if free(instantiate_spec(q, e.scheme.body, next)).contains(x) {
                    lemma_instantiate_free(q, e.scheme.body, next, x);
                    if !(next <= x < n2) {
                        assert(!q.to_set().contains(x));
                        assert(scheme_free(e.scheme).contains(x));
                    }
                }
            } else if exists|k: int| 0 <= k < c2.explicit.len() && #[trigger] explicit_active(c2.explicit[k]).contains(x) {
                let k = choose|k: int| 0 <= k < c2.explicit.len() && #[trigger] explicit_active(c2.explicit[k]).contains(x);
                assert(c.explicit[k + 1] == c2.explicit[k]);
            } else {
                let k = choose|k: int| 0 <= k < c2.implicit.len() && k != -1 && #[trigger] implicit_active(c2.implicit[k]).contains(x);
                assert(c.implicit[k] == c2.implicit[k]);
            }
        }
    } else {
        let j = choose|j: int| first_eligible(c, j);
        let i = c.implicit[j];
        let mono = free_seq(i.monomorphics);
        lemma_free_list(i.to_generalize);
        lemma_keep_outside(free_list(i.to_generalize), mono);
        assert forall|x: u32| active_vars_spec(c2).contains(x) implies active_vars_spec(c).contains(x) by {
            assert(implicit_active(c.implicit[j]).contains(x) ==> active_vars_spec(c).contains(x));
            if exists|k: int| 0 <= k < c2.equality.len() && #[trigger] eq_active(c2.equality[k]).contains(x) {
                let k = choose|k: int| 0 <= k < c2.equality.len() && #[trigger] eq_active(c2.equality[k]).contains(x);
                assert(c.equality[k] == c2.equality[k]);
            } else if exists|k: int| 0 <= k < c2.explicit.len() && #[trigger] explicit_active(c2.explicit[k]).contains(x) {
                let k = choose|k: int| 0 <= k < c2.explicit.len() && #[trigger] explicit_active(c2.explicit[k]).contains(x);
                if k < c.explicit.len() {
                    assert(c.explicit[k] == c2.explicit[k]);
                } else {
                    if !free(i.instance).contains(x) {
                        assert(free(i.to_generalize).contains(x));
                        assert(!generalized_ids(i.to_generalize, mono).to_set().contains(x));
                        assert(free_list(i.to_generalize).to_set().contains(x));
                        assert(mono.contains(x));
                    }
                }
            } else {
                let k = choose|k: int| 0 <= k < c2.implicit.len() && k != -1 && #[trigger] implicit_active(c2.implicit[k]).contains(x);
                if k < j {
                    assert(c.implicit[k] == c2.implicit[k]);
                } else {
                    assert(c.implicit[k + 1] == c2.implicit[k]);
                }
            }
        }
    }
}

/// A generalization step, the one that turns an implicit-instance constraint into an explicit
/// one, leaves the active variables exactly as they were.
pub proof fn lemma_generalize_step_active_vars(c: ConstraintsView, subs: Map<u32, Type>, next: nat)
    requires
        step_spec(c, subs, next) is Ok,
        c.equality.len() == 0,
        c.explicit.len() == 0,
    ensures
        active_vars_spec(step_spec(c, subs, next)->Ok_0.0) == active_vars_spec(c),
{
    let c2 = step_spec(c, subs, next)->Ok_0.0;
    let j = choose|j: int| first_eligible(c, j);
    let i = c.implicit[j];
    let mono = free_seq(i.monomorphics);
    lemma_free_list(i.to_generalize);
    lemma_keep_outside(free_list(i.to_generalize), mono);
    assert(c2.explicit.len() == 1);
    assert forall|x: u32| explicit_active(c2.explicit[0]).contains(x) <==> implicit_active(i).contains(x) by {
        if free(i.to_generalize).contains(x) {
            assert(free_list(i.to_generalize).to_set().contains(x));
        }
        assert(generalized_ids(i.to_generalize, mono).to_set().contains(x) <==> generalized_ids(
            i.to_generalize,
            mono,
        ).contains(x));
    }
    assert forall|x: u32| active_vars_spec(c2).contains(x) <==> active_vars_spec(c).contains(x) by {
        if active_vars_spec(c2).contains(x) {
            if exists|k: int| 0 <= k < c2.explicit.len() && #[trigger] explicit_active(c2.explicit[k]).contains(x) {
                assert(implicit_active(c.implicit[j]).contains(x));
            } else {
                let k = choose|k: int| 0 <= k < c2.implicit.len() && k != -1 && #[trigger] implicit_active(c2.implicit[k]).contains(x);
                if k < j {
                    assert(c.implicit[k] == c2.implicit[k]);
                } else {
                    assert(c.implicit[k + 1] == c2.implicit[k]);
                }
            }
        }
        if active_vars_spec(c).contains(x) {
            let k = choose|k: int| 0 <= k < c.implicit.len() && k != -1 && #[trigger] implicit_active(c.implicit[k]).contains(x);
            if k == j {
                assert(explicit_active(c2.explicit[0]).contains(x));
            } else if k < j {
                assert(c.implicit[k] == c2.implicit[k]);
            } else {
                assert(c.implicit[k] == c2.implicit[k - 1]);
            }
        }
    }
    assert(active_vars_spec(c2) =~= active_vars_spec(c));
}

/// Whether every unification step of the run from this state is of a pair that `mgu`
/// unifies independently.
pub open spec fn clean_run(c: ConstraintsView, subs: Map<u32, Type>, next: nat, fuel: nat) -> bool
    decreases fuel,
{
    if is_empty_spec(c) || fuel == 0 {
        true
    } else {
        match step_spec(c, subs, next) {
            Ok((c2, s2, n2)) => {
                &&& c.equality.len() > 0 ==> unifies_independently(c.equality[0].0, c.equality[0].1)
                &&& clean_run(c2, s2, n2, (fuel - 1) as nat)
            },
            Err(_) => true,
        }
    }
}

/// A pair `(t1, t2)` that `subs` already makes equal, or whose images under `subs` are a
/// pending equality, is made equal by the final substitution of a clean run.
proof fn lemma_run_sound(
    c: ConstraintsView,
    subs: Map<u32, Type>,
    next: nat,
    fuel: nat,
    t1: Type,
    t2: Type,
)
    requires
        solve_run(c, subs, next, fuel) is Ok,
        clean_run(c, subs, next, fuel),
        apply(subs, t1) == apply(subs, t2) || c.equality.contains((apply(subs, t1), apply(subs, t2))),
    ensures
        apply(solve_run(c, subs, next, fuel)->Ok_0.0, t1) == apply(
            solve_run(c, subs, next, fuel)->Ok_0.0,
            t2,
        ),
    decreases fuel,
{
    if is_empty_spec(c) {
        return;
    }
    let (c2, s2, n2) = step_spec(c, subs, next)->Ok_0;
    let a = apply(subs, t1);
    let b = apply(subs, t2);
    if c.equality.len() > 0 {
        let p = c.equality[0];
        let s = mgu_spec(p.0, p.1)->Ok_0;
        lemma_compose_apply(s, subs, t1);
        lemma_compose_apply(s, subs, t2);
        if a == b {
        } else {
            let k = choose|k: int| 0 <= k < c.equality.len() && #[trigger] c.equality[k] == (a, b);
            if k == 0 {
                lemma_mgu_unifies(p.0, p.1);
            } else {
                lemma_eq_step_sources(c, s);
                assert(c2.equality.contains((apply(s, c.equality[k].0), apply(s, c.equality[k].1))));
            }
        }
    }
    lemma_run_sound(c2, s2, n2, (fuel - 1) as nat, t1, t2);
}

/// On a clean run, the final substitution makes the two sides of every equality constraint
/// present when solving began equal.
pub proof fn lemma_solve_sound(c: ConstraintsView, next: nat, k: int)
    requires
        solve_spec(c, next) is Ok,
        clean_run(c, Map::empty(), next, measure(c)),
        0 <= k < c.equality.len(),
    ensures
        apply(solve_spec(c, next)->Ok_0.0, c.equality[k].0) == apply(
            solve_spec(c, next)->Ok_0.0,
            c.equality[k].1,
        ),
{
    let p = c.equality[k];
    crate::subst::lemma_apply_empty(p.0);
    crate::subst::lemma_apply_empty(p.1);
    assert(c.equality.contains(p));
    lemma_run_sound(c, Map::empty(), next, measure(c), p.0, p.1);
}

/// The variables of an explicit-instance constraint, quantified ones included.
pub open spec fn explicit_vars(e: ExplicitView) -> Set<u32> {
    free(e.instance).union(free(e.scheme.body))
}

/// The variables of an implicit-instance constraint.
pub open spec fn implicit_vars(i: ImplicitView) -> Set<u32> {
    free(i.instance).union(free_seq(i.monomorphics)).union(free(i.to_generalize))
}

/// Every variable that occurs in the constraints of `c`.
pub open spec fn constraint_vars(c: ConstraintsView) -> Set<u32> {
    Set::new(
        |x: u32|
            (exists|k: int| 0 <= k < c.equality.len() && #[trigger] eq_active(c.equality[k]).contains(x))
                || (exists|k: int|
                0 <= k < c.explicit.len() && #[trigger] explicit_vars(c.explicit[k]).contains(x))
                || (exists|k: int|
                0 <= k < c.implicit.len() && #[trigger] implicit_vars(c.implicit[k]).contains(x)),
    )
}

/// No value of `s` mentions an id that `s` binds.
pub open spec fn idempotent(s: Map<u32, Type>) -> bool {
    forall|k: u32| #[trigger] s.contains_key(k) ==> free(s[k]).disjoint(s.dom())
}

/// What holds of every state of a clean run that starts with all variables below `next`.
pub open spec fn clean_state(c: ConstraintsView, subs: Map<u32, Type>, next: nat) -> bool {
    &&& idempotent(subs)
    &&& constraint_vars(c).disjoint(subs.dom())
    &&& forall|x: u32| #[trigger] constraint_vars(c).contains(x) ==> x < next
    &&& forall|x: u32| #[trigger] subs.contains_key(x) ==> x < next
}

/// With `s` idempotent, a variable of `apply(s, t)` is not bound by `s`, and is a variable of
/// `t` or lies in `range`, which holds the variables of every value of `s`.
proof fn lemma_free_apply_idempotent(s: Map<u32, Type>, t: Type, range: Set<u32>, x: u32)
    requires
        free(apply(s, t)).contains(x),
        forall|k: u32| #[trigger] s.contains_key(k) ==> free(s[k]).subset_of(range),
        forall|k: u32| #[trigger] s.contains_key(k) ==> free(s[k]).disjoint(s.dom()),
    ensures
        !s.contains_key(x),
        free(t).contains(x) || range.contains(x),
{
    lemma_free_apply(s, t, x);
    if !(free(t).contains(x) && !s.contains_key(x)) {
        let k = choose|k: u32| free(t).contains(k) && s.contains_key(k) && #[trigger] free(s[k]).contains(x);
        assert(free(s[k]).disjoint(s.dom()));
    }
}

/// A clean step keeps the state clean.
proof fn lemma_step_clean(c: ConstraintsView, subs: Map<u32, Type>, next: nat)
    requires
        step_spec(c, subs, next) is Ok,
        clean_state(c, subs, next),
        c.equality.len() > 0 ==> unifies_independently(c.equality[0].0, c.equality[0].1),
    ensures
        clean_state(step_spec(c, subs, next)->Ok_0.0, step_spec(c, subs, next)->Ok_0.1, step_spec(c, subs, next)->Ok_0.2),
{
    let (c2, s2, n2) = step_spec(c, subs, next)->Ok_0;
    if c.equality.len() > 0 {
        let p = c.equality[0];
        let s = mgu_spec(p.0, p.1)->Ok_0;
        let range = vars2(p.0, p.1);
        lemma_mgu_vars(p.0, p.1);
        lemma_mgu_idempotent(p.0, p.1);
        lemma_eq_step_sources(c, s);
        assert(forall|x: u32| range.contains(x) ==> #[trigger] constraint_vars(c).contains(x)) by {
            assert forall|x: u32| range.contains(x) implies #[trigger] constraint_vars(c).contains(x) by {
                assert(eq_active(c.equality[0]).contains(x));
            }
        }
        // each variable of the new constraints is an old one that `s` leaves alone, or in `range`
        assert forall|x: u32| #[trigger] constraint_vars(c2).contains(x) implies constraint_vars(c).contains(x)
            && !s.contains_key(x) by {
            if exists|k: int| 0 <= k < c2.equality.len() && #[trigger] eq_active(c2.equality[k]).contains(x) {
                let k = choose|k: int| 0 <= k < c2.equality.len() && #[trigger] eq_active(c2.equality[k]).contains(x);
                let m = choose|m: int| 1 <= m < c.equality.len() && #[trigger] c2.equality[k] == (
                    apply(s, c.equality[m].0),
                    apply(s, c.equality[m].1),
                );
                let q = c.equality[m];
                if free(apply(s, q.0)).contains(x) {
                    lemma_free_apply_idempotent(s, q.0, range, x);
                } else {
                    lemma_free_apply_idempotent(s, q.1, range, x);
                }
                if !range.contains(x) {
                    assert(eq_active(c.equality[m]).contains(x));
                }
            } else if exists|k: int| 0 <= k < c2.explicit.len() && #[trigger] explicit_vars(c2.explicit[k]).contains(x) {
                let k = choose|k: int| 0 <= k < c2.explicit.len() && #[trigger] explicit_vars(c2.explicit[k]).contains(x);
                let m = choose|m: int|
                    0 <= m < c.explicit.len() && #[trigger] c2.explicit[k] == apply_explicit(s, c.explicit[m]);
                let e = c.explicit[m];
                if free(apply(s, e.instance)).contains(x) {
                    lemma_free_apply_idempotent(s, e.instance, range, x);
                } else {
                    lemma_free_apply_idempotent(s, e.scheme.body, range, x);
                }
                if !range.contains(x) {
                    assert(explicit_vars(c.explicit[m]).contains(x));
                }
            } else {
                let k = choose|k: int| 0 <= k < c2.implicit.len() && #[trigger] implicit_vars(c2.implicit[k]).contains(x);
                let mi = choose|m: int|
                    0 <= m < c.implicit.len() && #[trigger] c2.implicit[k] == apply_implicit(s, c.implicit[m]);
                let i = c.implicit[mi];
                if free(apply(s, i.instance)).contains(x) {
                    lemma_free_apply_idempotent(s, i.instance, range, x);
                } else if free(apply(s, i.to_generalize)).contains(x) {
                    lemma_free_apply_idempotent(s, i.to_generalize, range, x);
                } else {
                    let ms = apply_seq(s, i.monomorphics);
                    assert(free_seq(ms).contains(x));
                    let m = choose|m: int| 0 <= m < ms.len() && #[trigger] free(ms[m]).contains(x);
                    lemma_free_apply_idempotent(s, i.monomorphics[m], range, x);
                    if free(i.monomorphics[m]).contains(x) {
                        assert(free_seq(i.monomorphics).contains(x));
                    }
                }
                if !range.contains(x) {
                    assert(implicit_vars(c.implicit[mi]).contains(x));
                }
            }
        }
        assert forall|k: u32| #[trigger] s2.contains_key(k) implies free(s2[k]).disjoint(s2.dom()) by {
            if s.contains_key(k) {
                assert forall|x: u32| free(s2[k]).contains(x) implies !s2.dom().contains(x) by {
                    assert(range.contains(x));
                    assert(constraint_vars(c).contains(x));
                }
            } else {
                assert forall|x: u32| free(s2[k]).contains(x) implies !s2.dom().contains(x) by {
                    lemma_free_apply_idempotent(s, subs[k], range, x);
                    if range.contains(x) {
                        assert(constraint_vars(c).contains(x));
                    } else {
                        assert(free(subs[k]).disjoint(subs.dom()));
                        assert(!subs.dom().contains(x));
                    }
                }
            }
        }
        assert forall|x: u32| #[trigger] s2.contains_key(x) implies x < n2 by {
            if s.contains_key(x) {
                assert(constraint_vars(c).contains(x));
            }
        }
        assert forall|x: u32| #[trigger] constraint_vars(c2).contains(x) implies x < n2 && !s2.dom().contains(x) by {
        }
    } else if c.explicit.len() > 0 {
        let e = c.explicit[0];
        let q = e.scheme.quantified;
        assert forall|x: u32| #[trigger] constraint_vars(c2).contains(x) implies constraint_vars(c).contains(x)
            || (next <= x < n2) by {
            if exists|k: int| 0 <= k < c2.equality.len() && #[trigger] eq_active(c2.equality[k]).contains(x) {
                let k = choose|k: int| 0 <= k < c2.equality.len() && #[trigger] eq_active(c2.equality[k]).contains(x);
                assert(k == 0);
                if free(instantiate_spec(q, e.scheme.body, next)).contains(x) {
                    lemma_instantiate_free(q, e.scheme.body, next, x);
                }
                if !(next <= x < n2) {
                    assert(explicit_vars(c.explicit[0]).contains(x));
                }
            } else if exists|k: int| 0 <= k < c2.explicit.len() && #[trigger] explicit_vars(c2.explicit[k]).contains(x) {
                let k = choose|k: int| 0 <= k < c2.explicit.len() && #[trigger] explicit_vars(c2.explicit[k]).contains(x);
                assert(c.explicit[k + 1] == c2.explicit[k]);
            } else {
                let k = choose|k: int| 0 <= k < c2.implicit.len() && #[trigger] implicit_vars(c2.implicit[k]).contains(x);
                assert(c.implicit[k] == c2.implicit[k]);
            }
        }
    } else {
        let j = choose|j: int| first_eligible(c, j);
        let i = c.implicit[j];
        assert forall|x: u32| #[trigger] constraint_vars(c2).contains(x) implies constraint_vars(c).contains(x) by {
            if exists|k: int| 0 <= k < c2.equality.len() && #[trigger] eq_active(c2.equality[k]).contains(x) {
                let k = choose|k: int| 0 <= k < c2.equality.len() && #[trigger] eq_active(c2.equality[k]).contains(x);
                assert(c.equality[k] == c2.equality[k]);
            } else if exists|k: int| 0 <= k < c2.explicit.len() && #[trigger] explicit_vars(c2.explicit[k]).contains(x) {
                let k = choose|k: int| 0 <= k < c2.explicit.len() && #[trigger] explicit_vars(c2.explicit[k]).contains(x);
                if k < c.explicit.len() {
                    assert(c.explicit[k] == c2.explicit[k]);
                } else {
                    assert(implicit_vars(c.implicit[j]).contains(x));
                }
            } else {
                let k = choose|k: int| 0 <= k < c2.implicit.len() && #[trigger] implicit_vars(c2.implicit[k]).contains(x);
                if k < j {
                    assert(c.implicit[k] == c2.implicit[k]);
                } else {
                    assert(c.implicit[k + 1] == c2.implicit[k]);
                }
            }
        }
    }
}

/// The final substitution of a clean run from a clean state binds no id in its own values.
proof fn lemma_run_idempotent(c: ConstraintsView, subs: Map<u32, Type>, next: nat, fuel: nat)
    requires
        solve_run(c, subs, next, fuel) is Ok,
        clean_run(c, subs, next, fuel),
        clean_state(c, subs, next),
    ensures
        idempotent(solve_run(c, subs, next, fuel)->Ok_0.0),
    decreases fuel,
{
    if !is_empty_spec(c) {
        let (c2, s2, n2) = step_spec(c, subs, next)->Ok_0;
        lemma_step_clean(c, subs, next);
        lemma_run_idempotent(c2, s2, n2, (fuel - 1) as nat);
    }
}

/// On a clean run that starts with every variable of the constraints below `next`, the final
/// substitution is idempotent: applying it twice is applying it once.
pub proof fn lemma_solve_idempotent(c: ConstraintsView, next: nat, t: Type)
    requires
        solve_spec(c, next) is Ok,
        clean_run(c, Map::empty(), next, measure(c)),
        forall|x: u32| #[trigger] constraint_vars(c).contains(x) ==> x < next,
    ensures
        apply(solve_spec(c, next)->Ok_0.0, apply(solve_spec(c, next)->Ok_0.0, t)) == apply(
            solve_spec(c, next)->Ok_0.0,
            t,
        ),
{
    lemma_run_idempotent(c, Map::empty(), next, measure(c));
    let s = solve_spec(c, next)->Ok_0.0;
    assert forall|k: u32| s.contains_key(k) implies apply(s, #[trigger] s[k]) == s[k] by {
        lemma_apply_unbound(s, s[k]);
    }
    lemma_apply_idempotent(s, t);
}

} // verus!
