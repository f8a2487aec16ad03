use heeren_hage_swierstra::{
    fresh_type_id, infer_type, Environment, InferError, Ir, Scheme, Supply, Type, TypedIr,
};

fn f(a: Type, b: Type) -> Type {
    Type::F(Box::new(a), Box::new(b))
}

fn id(x: &str) -> Ir {
    Ir::Id(x.to_string())
}

fn lit_int(i: i64) -> Ir {
    Ir::LiteralInt(i)
}

fn text(s: &str) -> Ir {
    Ir::LiteralStr(s.to_string())
}

fn app(e1: Ir, e2: Ir) -> Ir {
    Ir::App { e1: Box::new(e1), e2: Box::new(e2) }
}

fn lam(x: &str, body: Ir) -> Ir {
    Ir::Lam { binding: x.to_string(), body: Box::new(body) }
}

fn let_in(e1: Ir, x: &str, e2: Ir) -> Ir {
    Ir::Let { e1: Box::new(e1), binding: x.to_string(), e2: Box::new(e2) }
}

/// `len : Str -> Int` and `print : forall a. a -> Nothing`.
fn standard_env(supply: &mut Supply) -> Environment {
    let mut env = Environment::new();
    env.insert(
        "len".to_string(),
        Scheme { quantified: vec![], body: f(Type::Str, Type::Int) },
    );
    let a = fresh_type_id(supply);
    env.insert(
        "print".to_string(),
        Scheme { quantified: vec![a], body: f(Type::Unknown(a), Type::Nothing) },
    );
    env
}

#[test]
fn len_of_string_literal_is_int() {
    let mut supply = Supply::new();
    let env = standard_env(&mut supply);
    let expr = app(id("len"), text("abc"));
    let (_, typed) = infer_type(&env, expr, &mut supply).unwrap();
    assert_eq!(*typed.ty(), Type::Int);
    match typed {
        TypedIr::App { e1, e2, ty } => {
            assert_eq!(ty, Type::Int);
            match *e1 {
                TypedIr::Id(name, t) => {
                    assert_eq!(name, "len");
                    assert_eq!(t, f(Type::Str, Type::Int));
                }
                other => panic!("unexpected node {:?}", other),
            }
            match *e2 {
                TypedIr::LiteralStr(s, t) => {
                    assert_eq!(s, "abc");
                    assert_eq!(t, Type::Str);
                }
                other => panic!("unexpected node {:?}", other),
            }
        }
        other => panic!("unexpected node {:?}", other),
    }
}

#[test]
fn identity_lambda_is_monomorphic_function() {
    let mut supply = Supply::new();
    let env = standard_env(&mut supply);
    let (_, typed) = infer_type(&env, lam("x", id("x")), &mut supply).unwrap();
    match typed.ty() {
        Type::F(a, b) => {
            assert!(matches!(**a, Type::Unknown(_)));
            assert_eq!(a, b);
        }
        other => panic!("unexpected type {:?}", other),
    }
}

#[test]
fn let_bound_identity_applied_to_int() {
    let mut supply = Supply::new();
    let env = standard_env(&mut supply);
    let expr = let_in(lam("x", id("x")), "id", app(id("id"), lit_int(1)));
    let (_, typed) = infer_type(&env, expr, &mut supply).unwrap();
    assert_eq!(*typed.ty(), Type::Int);
    match typed {
        TypedIr::Let { e1, .. } => match e1.ty() {
            Type::F(a, b) => {
                assert!(matches!(**a, Type::Unknown(_)));
                assert_eq!(a, b);
            }
            other => panic!("unexpected type {:?}", other),
        },
        other => panic!("unexpected node {:?}", other),
    }
}

#[test]
fn let_polymorphism_at_two_types() {
    let mut supply = Supply::new();
    let env = standard_env(&mut supply);
    let body = Ir::Sequence(
        Box::new(app(id("id"), lit_int(1))),
        Box::new(app(id("id"), text("s"))),
    );
    let expr = let_in(lam("x", id("x")), "id", body);
    let (_, typed) = infer_type(&env, expr, &mut supply).unwrap();
    assert_eq!(*typed.ty(), Type::Str);
    match typed {
        TypedIr::Let { e2, .. } => match *e2 {
            TypedIr::Sequence(first, second) => {
                assert_eq!(*first.ty(), Type::Int);
                assert_eq!(*second.ty(), Type::Str);
            }
            other => panic!("unexpected node {:?}", other),
        },
        other => panic!("unexpected node {:?}", other),
    }
}

#[test]
fn lambda_bound_variable_stays_monomorphic_under_let() {
    let mut supply = Supply::new();
    let env = standard_env(&mut supply);
    let inner = let_in(lam("y", id("x")), "f", app(id("f"), lit_int(0)));
    let expr = lam("x", inner);
    let (_, typed) = infer_type(&env, expr, &mut supply).unwrap();
    match typed {
        TypedIr::Lam { body, ty, .. } => match ty {
            Type::F(a, b) => {
                assert!(matches!(*a, Type::Unknown(_)));
                assert_eq!(a, b);
                assert_eq!(*body.ty(), *a);
            }
            other => panic!("unexpected type {:?}", other),
        },
        other => panic!("unexpected node {:?}", other),
    }
}

#[test]
fn adding_string_to_int_fails_to_unify() {
    let mut supply = Supply::new();
    let env = standard_env(&mut supply);
    let expr = Ir::Add(Box::new(text("a")), Box::new(lit_int(1)));
    match infer_type(&env, expr, &mut supply) {
        Err(InferError::CannotUnify(a, b)) => {
            assert_eq!(a, Type::Str);
            assert_eq!(b, Type::Int);
        }
        other => panic!("unexpected result {:?}", other),
    }
}

#[test]
fn print_is_instantiated_per_use() {
    let mut supply = Supply::new();
    let env = standard_env(&mut supply);
    let expr = Ir::Sequence(
        Box::new(app(id("print"), lit_int(3))),
        Box::new(app(id("print"), text("t"))),
    );
    let (_, typed) = infer_type(&env, expr, &mut supply).unwrap();
    assert_eq!(*typed.ty(), Type::Nothing);
    match typed {
        TypedIr::Sequence(first, second) => match (*first, *second) {
            (TypedIr::App { e1: p1, .. }, TypedIr::App { e1: p2, .. }) => {
                assert_eq!(*p1.ty(), f(Type::Int, Type::Nothing));
                assert_eq!(*p2.ty(), f(Type::Str, Type::Nothing));
            }
            other => panic!("unexpected nodes {:?}", other),
        },
        other => panic!("unexpected node {:?}", other),
    }
}

#[test]
fn unbound_identifiers_are_all_reported() {
    let mut supply = Supply::new();
    let env = standard_env(&mut supply);
    let expr = app(id("nope"), app(id("len"), id("missing")));
    match infer_type(&env, expr, &mut supply) {
        Err(InferError::UnboundIdentifiers(names)) => {
            assert_eq!(names, vec!["nope".to_string(), "missing".to_string()]);
        }
        other => panic!("unexpected result {:?}", other),
    }
}

#[test]
fn exhausted_supply_is_reported() {
    let mut supply = Supply::starting_at(u32::MAX);
    let env = Environment::new();
    match infer_type(&env, lam("x", id("x")), &mut supply) {
        Err(InferError::OutOfTypeVariables) => {}
        other => panic!("unexpected result {:?}", other),
    }
}

#[test]
fn literals_and_nop_need_no_solving() {
    let mut supply = Supply::new();
    let env = Environment::new();
    let expr = Ir::Sequence(Box::new(Ir::Nop), Box::new(lit_int(7)));
    let (subs, typed) = infer_type(&env, expr, &mut supply).unwrap();
    assert_eq!(subs.is_empty(), true);
    assert_eq!(*typed.ty(), Type::Int);
    let (_, typed) = infer_type(&env, Ir::Nop, &mut supply).unwrap();
    assert_eq!(*typed.ty(), Type::Nothing);
}

#[test]
fn add_of_integers_is_int() {
    let mut supply = Supply::new();
    let env = standard_env(&mut supply);
    let expr = Ir::Add(Box::new(lit_int(1)), Box::new(app(id("len"), text("abc"))));
    let (_, typed) = infer_type(&env, expr, &mut supply).unwrap();
    assert_eq!(*typed.ty(), Type::Int);
}

#[test]
fn inferred_types_satisfy_generated_equalities() {
    let mut supply = Supply::new();
    let env = standard_env(&mut supply);
    let expr = app(lam("x", Ir::Add(Box::new(id("x")), Box::new(lit_int(1)))), lit_int(2));
    let (subs, typed) = infer_type(&env, expr, &mut supply).unwrap();
    assert_eq!(*typed.ty(), Type::Int);
    match typed {
        TypedIr::App { e1, .. } => {
            assert_eq!(*e1.ty(), f(Type::Int, Type::Int));
        }
        other => panic!("unexpected node {:?}", other),
    }
    assert!(!subs.is_empty());
}

#[test]
fn repeated_use_of_let_bound_function_over_lambda_variable() {
    let mut supply = Supply::new();
    let env = standard_env(&mut supply);
    let sum = Ir::Add(
        Box::new(app(id("f"), lit_int(0))),
        Box::new(app(id("f"), lit_int(0))),
    );
    let expr = lam("x", let_in(lam("y", id("x")), "f", sum));
    let (_, typed) = infer_type(&env, expr, &mut supply).unwrap();
    assert_eq!(*typed.ty(), f(Type::Int, Type::Int));
}
