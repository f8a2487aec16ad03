use heeren_hage_swierstra::{
    compose, fresh_type_id, fresh_type_var, generalize, instantiate, mgu, solve, solve_step,
    ApplySubst, Constraints, ExplicitInstance, FreeVars, ImplicitInstance, InferError, InferStep,
    Scheme, Substitution, Supply, Type, TypedIr,
};

fn f(a: Type, b: Type) -> Type {
    Type::F(Box::new(a), Box::new(b))
}

fn u(i: u32) -> Type {
    Type::Unknown(i)
}

fn sub(pairs: Vec<(u32, Type)>) -> Substitution {
    let mut s = Substitution::new();
    for (k, v) in pairs {
        s.insert(k, v);
    }
    s
}

fn applied(s: &Substitution, t: &Type) -> Type {
    let mut t = t.clone();
    t.apply_subst(s);
    t
}

fn sorted(mut v: Vec<u32>) -> Vec<u32> {
    v.sort();
    v
}

#[test]
fn apply_replaces_bound_variables_only() {
    let s = sub(vec![(0, Type::Int), (2, f(Type::Str, u(3)))]);
    assert_eq!(applied(&s, &f(u(0), f(u(1), u(2)))), f(Type::Int, f(u(1), f(Type::Str, u(3)))));
}

#[test]
fn apply_leaves_ground_types_alone() {
    let s = sub(vec![(0, Type::Int), (1, Type::Str)]);
    let ground = f(Type::Int, f(Type::Str, Type::Nothing));
    assert_eq!(applied(&s, &ground), ground);
}

#[test]
fn later_insert_replaces_binding() {
    let mut s = Substitution::new();
    s.insert(4, Type::Int);
    s.insert(4, Type::Str);
    assert_eq!(s.get(4), Some(&Type::Str));
    assert_eq!(s.get(5), None);
}

#[test]
fn compose_applies_right_then_left() {
    let a = sub(vec![(0, Type::Int)]);
    let b = sub(vec![(1, f(u(0), Type::Str))]);
    let t = f(u(1), u(0));
    let expected = applied(&a, &applied(&b, &t));
    let c = compose(sub(vec![(0, Type::Int)]), sub(vec![(1, f(u(0), Type::Str))]));
    assert_eq!(applied(&c, &t), expected);
    assert_eq!(applied(&c, &t), f(f(Type::Int, Type::Str), Type::Int));
}

#[test]
fn compose_maps_shared_key_through_right_binding() {
    let c = compose(sub(vec![(0, Type::Int)]), sub(vec![(0, Type::Str)]));
    assert_eq!(c.get(0), Some(&Type::Str));
    let c = compose(sub(vec![(0, Type::Int)]), sub(vec![(0, f(u(0), u(1)))]));
    assert_eq!(c.get(0), Some(&f(Type::Int, u(1))));
    let t = f(u(0), u(0));
    let expected = applied(&sub(vec![(0, Type::Int)]), &applied(&sub(vec![(0, f(u(0), u(1)))]), &t));
    assert_eq!(applied(&c, &t), expected);
}

#[test]
fn idempotent_substitution_applied_twice() {
    let s = sub(vec![(0, f(Type::Int, u(5))), (1, Type::Str)]);
    for t in [u(0), u(1), f(u(0), u(1)), u(5)] {
        let once = applied(&s, &t);
        assert_eq!(applied(&s, &once), once);
    }
}

#[test]
fn fresh_ids_are_distinct_and_increasing() {
    let mut supply = Supply::new();
    let a = fresh_type_id(&mut supply);
    let b = fresh_type_id(&mut supply);
    let c = fresh_type_var(&mut supply);
    assert_eq!(a, 0);
    assert_eq!(b, 1);
    assert_eq!(c, u(2));
    assert_eq!(supply.peek(), 3);
}

#[test]
fn seeded_supply_starts_where_asked() {
    let mut supply = Supply::starting_at(40);
    assert_eq!(fresh_type_id(&mut supply), 40);
    assert!(supply.has_room(10));
    assert!(!Supply::starting_at(u32::MAX).has_room(1));
}

#[test]
fn free_vars_of_types_and_schemes() {
    assert_eq!(f(u(3), f(u(1), u(3))).free_vars(), vec![3, 1]);
    assert_eq!(Type::Int.free_vars(), Vec::<u32>::new());
    let scheme = Scheme { quantified: vec![1], body: f(u(1), u(2)) };
    assert_eq!(scheme.free_vars(), vec![2]);
    let mono: Vec<Type> = vec![u(4), f(u(5), u(4))];
    assert_eq!(sorted(mono.free_vars()), vec![4, 5]);
}

#[test]
fn generalize_quantifies_outside_monomorphics() {
    let mono: Vec<Type> = vec![u(0)];
    let scheme = generalize(&mono, &f(u(0), f(u(1), u(2))));
    assert_eq!(scheme.quantified, vec![1, 2]);
    assert_eq!(scheme.body, f(u(0), f(u(1), u(2))));
    assert_eq!(scheme.free_vars(), vec![0]);
}

#[test]
fn generalize_in_empty_context_quantifies_everything() {
    let mono: Vec<Type> = vec![];
    let scheme = generalize(&mono, &f(u(7), u(7)));
    assert_eq!(scheme.quantified, vec![7]);
    assert_eq!(scheme.free_vars(), Vec::<u32>::new());
}

#[test]
fn instantiate_uses_fresh_ids() {
    let mut supply = Supply::starting_at(10);
    let t = instantiate(&vec![5, 6], &f(u(5), f(u(6), u(7))), &mut supply);
    assert_eq!(t, f(u(10), f(u(11), u(7))));
    assert_eq!(supply.peek(), 12);
    assert!(!t.free_vars().contains(&5));
    assert!(!t.free_vars().contains(&6));
}

#[test]
fn mgu_of_equal_base_types_is_empty() {
    assert_eq!(mgu(&Type::Int, &Type::Int).unwrap().is_empty(), true);
    assert_eq!(mgu(&Type::Str, &Type::Str).unwrap().is_empty(), true);
    assert_eq!(mgu(&Type::Nothing, &Type::Nothing).unwrap().is_empty(), true);
    assert_eq!(mgu(&u(3), &u(3)).unwrap().is_empty(), true);
}

#[test]
fn mgu_binds_variables_on_either_side() {
    let s = mgu(&u(1), &f(Type::Int, Type::Str)).unwrap();
    assert_eq!(s.get(1), Some(&f(Type::Int, Type::Str)));
    let s = mgu(&Type::Str, &u(2)).unwrap();
    assert_eq!(s.get(2), Some(&Type::Str));
    let s = mgu(&u(1), &u(2)).unwrap();
    assert_eq!(s.get(1), Some(&u(2)));
}

#[test]
fn mgu_of_functions_unifies_parts() {
    let s = mgu(&f(u(0), Type::Str), &f(Type::Int, u(1))).unwrap();
    assert_eq!(applied(&s, &f(u(0), Type::Str)), f(Type::Int, Type::Str));
    assert_eq!(applied(&s, &f(Type::Int, u(1))), f(Type::Int, Type::Str));
}

#[test]
fn mgu_reports_mismatch() {
    match mgu(&f(Type::Int, Type::Str), &f(Type::Int, Type::Nothing)) {
        Err(InferError::CannotUnify(a, b)) => {
            assert_eq!(a, Type::Str);
            assert_eq!(b, Type::Nothing);
        }
        other => panic!("unexpected result {:?}", other),
    }
    assert!(matches!(mgu(&Type::Int, &f(Type::Int, Type::Int)), Err(InferError::CannotUnify(_, _))));
}

#[test]
fn constraints_insert_peek_remove() {
    let mut cs = Constraints::new();
    assert!(cs.is_empty());
    assert_eq!(cs.next_eq(), None);
    cs.insert_eq(u(0), Type::Int);
    cs.insert_eq(u(1), Type::Str);
    assert!(!cs.is_empty());
    assert_eq!(cs.next_eq(), Some((u(0), Type::Int)));
    assert!(cs.remove_eq(&(u(0), Type::Int)));
    assert!(!cs.remove_eq(&(u(0), Type::Int)));
    assert_eq!(cs.next_eq(), Some((u(1), Type::Str)));

    cs.insert_explicit(u(2), Scheme { quantified: vec![3, 4], body: f(u(3), u(4)) });
    let e = cs.next_explicit().unwrap();
    assert_eq!(e.instance, u(2));
    let reordered = ExplicitInstance {
        instance: u(2),
        scheme: Scheme { quantified: vec![4, 3], body: f(u(3), u(4)) },
    };
    assert!(cs.remove_exp(&reordered));
    assert!(cs.next_explicit().is_none());

    cs.insert_implicit(u(5), vec![u(6)], f(u(6), u(7)));
    let i = cs.next_implicit().unwrap();
    assert_eq!(i.instance, u(5));
    assert!(cs.remove_imp(&i));
    assert!(cs.next_implicit().is_none());
}

#[test]
fn merge_keeps_both_sets() {
    let mut a = Constraints::new();
    a.insert_eq(u(0), Type::Int);
    let mut b = Constraints::new();
    b.insert_eq(u(1), Type::Int);
    b.insert_implicit(u(2), vec![], u(3));
    a.merge(b);
    assert!(a.remove_eq(&(u(0), Type::Int)));
    assert!(a.remove_eq(&(u(1), Type::Int)));
    assert!(a.next_implicit().is_some());
}

#[test]
fn active_vars_follow_constraint_kinds() {
    let mut cs = Constraints::new();
    cs.insert_eq(u(0), u(1));
    cs.insert_explicit(u(2), Scheme { quantified: vec![3], body: f(u(3), u(4)) });
    cs.insert_implicit(u(5), vec![u(6), u(7)], f(u(6), u(8)));
    assert_eq!(sorted(cs.active_vars()), vec![0, 1, 2, 4, 5, 6]);
}

#[test]
fn implicit_blocked_by_active_variable() {
    let mut cs = Constraints::new();
    cs.insert_implicit(u(0), vec![], u(1));
    cs.insert_eq(u(1), Type::Int);
    assert!(cs.next_implicit().is_none());
    assert_eq!(cs.eligible_implicit(), None);
    let mut cs = Constraints::new();
    cs.insert_implicit(u(0), vec![], u(1));
    assert_eq!(cs.eligible_implicit(), Some(0));
}

#[test]
fn solver_step_does_not_grow_active_vars() {
    let mut cs = Constraints::new();
    cs.insert_eq(u(0), f(u(1), u(2)));
    cs.insert_implicit(u(3), vec![u(1)], f(u(0), u(4)));
    let before = cs.active_vars();
    let mut supply = Supply::starting_at(10);
    let s = solve_step(&mut cs, Substitution::new(), &mut supply).unwrap();
    assert_eq!(s.get(0), Some(&f(u(1), u(2))));
    let after = cs.active_vars();
    assert!(after.iter().all(|x| before.contains(x)));
    let before = after;
    let _ = solve_step(&mut cs, s, &mut supply).unwrap();
    let after = cs.active_vars();
    assert!(after.iter().all(|x| before.contains(x)));
}

#[test]
fn solve_resolves_explicit_instance() {
    let mut cs = Constraints::new();
    cs.insert_explicit(f(Type::Int, u(0)), Scheme { quantified: vec![9], body: f(u(9), u(9)) });
    let mut supply = Supply::starting_at(20);
    let s = solve(cs, &mut supply).unwrap();
    assert_eq!(applied(&s, &u(0)), Type::Int);
    assert_eq!(supply.peek(), 21);
}

#[test]
fn solve_reports_stuck_constraints() {
    let mut cs = Constraints::new();
    cs.insert_implicit(u(0), vec![u(1)], u(1));
    cs.insert_implicit(u(1), vec![u(0)], u(0));
    let mut supply = Supply::starting_at(10);
    assert!(matches!(solve(cs, &mut supply), Err(InferError::SolverStuck)));
}

#[test]
fn infer_steps_build_typed_nodes() {
    let mut supply = Supply::new();
    let x = InferStep::var("x".to_string(), &mut supply);
    assert_eq!(x.assumptions, vec![("x".to_string(), u(0))]);
    let one = InferStep::literal_int(1);
    let sum = InferStep::add(x, one);
    assert_eq!(*sum.typed_expr.ty(), u(0));
    let param = fresh_type_var(&mut supply);
    let lam = InferStep::abs("x".to_string(), param.clone(), sum);
    assert!(lam.assumptions.is_empty());
    assert_eq!(*lam.typed_expr.ty(), f(u(1), u(0)));
    let s = InferStep::literal_str("s".to_string());
    let applied_step = InferStep::app(lam, s, &mut supply);
    assert_eq!(*applied_step.typed_expr.ty(), u(2));
    let nop = InferStep::nop();
    let both = InferStep::seq(nop, applied_step);
    assert_eq!(*both.typed_expr.ty(), u(2));
}

#[test]
fn let_step_turns_uses_into_implicit_constraints() {
    let mut supply = Supply::new();
    let bound = InferStep::literal_int(3);
    let use1 = InferStep::var("n".to_string(), &mut supply);
    let use2 = InferStep::var("n".to_string(), &mut supply);
    let body = InferStep::seq(use1, use2);
    let mono: Vec<Type> = vec![u(9)];
    let mut step = InferStep::let_(&mono, bound, "n".to_string(), body);
    assert!(step.assumptions.is_empty());
    assert_eq!(*step.typed_expr.ty(), u(1));
    let first = step.constraints.next_implicit().unwrap();
    assert_eq!(first.monomorphics, vec![u(9)]);
    assert_eq!(first.to_generalize, Type::Int);
    assert!(step.constraints.remove_imp(&first));
    assert!(step.constraints.next_implicit().is_some());
}

#[test]
fn typed_tree_substitution_and_types() {
    let tree = TypedIr::Add(
        Box::new(TypedIr::Id("a".to_string(), u(0))),
        Box::new(TypedIr::LiteralInt(2, Type::Int)),
    );
    assert_eq!(*tree.ty(), u(0));
    let s = sub(vec![(0, Type::Int)]);
    let mut t = tree.substitute(&s);
    assert_eq!(*t.ty(), Type::Int);
    t.apply_subst(&s);
    assert_eq!(*t.ty(), Type::Int);
}

#[test]
fn implicit_and_explicit_clone_equal() {
    let e = ExplicitInstance { instance: u(1), scheme: Scheme { quantified: vec![2], body: u(2) } };
    assert!(e.same_as(&e.clone()));
    let i = ImplicitInstance { instance: u(1), monomorphics: vec![u(3)], to_generalize: u(4) };
    assert!(i.same_as(&i.clone()));
    let j = ImplicitInstance { instance: u(1), monomorphics: vec![], to_generalize: u(4) };
    assert!(!i.same_as(&j));
}

#[test]
fn constraint_sets_hold_each_constraint_once() {
    let mut cs = Constraints::new();
    cs.insert_eq(u(0), Type::Int);
    cs.insert_eq(u(0), Type::Int);
    assert!(cs.remove_eq(&(u(0), Type::Int)));
    assert_eq!(cs.next_eq(), None);
    assert!(!cs.remove_eq(&(u(0), Type::Int)));

    cs.insert_explicit(u(2), Scheme { quantified: vec![3, 4], body: f(u(3), u(4)) });
    cs.insert_explicit(u(2), Scheme { quantified: vec![4, 3], body: f(u(3), u(4)) });
    let e = cs.next_explicit().unwrap();
    assert!(cs.remove_exp(&e));
    assert!(cs.next_explicit().is_none());

    cs.insert_implicit(u(5), vec![u(6)], u(7));
    cs.insert_implicit(u(5), vec![u(6)], u(7));
    let i = cs.next_implicit().unwrap();
    assert!(cs.remove_imp(&i));
    assert!(cs.next_implicit().is_none());
    assert!(cs.is_empty());
}

#[test]
fn merge_skips_constraints_already_present() {
    let mut a = Constraints::new();
    a.insert_eq(u(0), Type::Int);
    let mut b = Constraints::new();
    b.insert_eq(u(0), Type::Int);
    b.insert_eq(u(1), Type::Str);
    a.merge(b);
    assert!(a.remove_eq(&(u(0), Type::Int)));
    assert_eq!(a.next_eq(), Some((u(1), Type::Str)));
    assert!(a.remove_eq(&(u(1), Type::Str)));
    assert!(a.is_empty());
}

#[test]
fn substituting_merges_coinciding_constraints() {
    let mut cs = Constraints::new();
    cs.insert_eq(u(0), Type::Int);
    cs.insert_eq(u(1), Type::Int);
    cs.insert_implicit(u(2), vec![u(0)], u(3));
    cs.insert_implicit(u(2), vec![u(1)], u(3));
    cs.apply_subst(&sub(vec![(1, u(0))]));
    assert!(cs.remove_eq(&(u(0), Type::Int)));
    assert!(cs.next_eq().is_none());
    let i = cs.next_implicit().unwrap();
    assert_eq!(i.monomorphics, vec![u(0)]);
    assert!(cs.remove_imp(&i));
    assert!(cs.next_implicit().is_none());
}
