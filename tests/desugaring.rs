use heeren_hage_swierstra::{fresh_type_id, infer_type, Ast, Environment, Ir, Scheme, Supply, Type};

fn boxed(a: Ast) -> Box<Ast> {
    Box::new(a)
}

fn ir(e: Ir) -> Box<Ir> {
    Box::new(e)
}

fn id(name: &str) -> Ast {
    Ast::Id(name.to_string())
}

#[test]
fn empty_block_is_nop() {
    assert_eq!(Ast::Do(vec![]).desugar(), Ir::Nop);
}

#[test]
fn statements_are_sequenced() {
    let block = Ast::Do(vec![id("a"), id("b"), Ast::LiteralInt(3)]);
    let expected = Ir::Sequence(
        ir(Ir::Id("a".to_string())),
        ir(Ir::Sequence(ir(Ir::Id("b".to_string())), ir(Ir::LiteralInt(3)))),
    );
    assert_eq!(block.desugar(), expected);
}

#[test]
fn let_statement_scopes_over_rest_of_block() {
    let block = Ast::Do(vec![
        Ast::Let { e1: boxed(Ast::LiteralStr("v".to_string())), binding: "a".to_string() },
        id("a"),
    ]);
    let expected = Ir::Let {
        e1: ir(Ir::LiteralStr("v".to_string())),
        binding: "a".to_string(),
        e2: ir(Ir::Id("a".to_string())),
    };
    assert_eq!(block.desugar(), expected);
}

#[test]
fn named_function_becomes_let_of_lambda() {
    let f = Ast::Fn {
        fn_name: "f".to_string(),
        parameter: "x".to_string(),
        body: boxed(Ast::Add(boxed(id("x")), boxed(Ast::LiteralInt(1)))),
    };
    let lam = Ir::Lam {
        binding: "x".to_string(),
        body: ir(Ir::Add(ir(Ir::Id("x".to_string())), ir(Ir::LiteralInt(1)))),
    };
    let standalone = Ir::Let { e1: ir(lam), binding: "f".to_string(), e2: ir(Ir::Nop) };
    assert_eq!(Ast::Fn {
        fn_name: "f".to_string(),
        parameter: "x".to_string(),
        body: boxed(Ast::Add(boxed(id("x")), boxed(Ast::LiteralInt(1)))),
    }
    .desugar(), standalone);
    let block = Ast::Do(vec![f, Ast::App { e1: boxed(id("f")), e2: boxed(Ast::LiteralInt(2)) }]);
    match block.desugar() {
        Ir::Let { binding, e2, .. } => {
            assert_eq!(binding, "f");
            assert_eq!(
                *e2,
                Ir::App { e1: ir(Ir::Id("f".to_string())), e2: ir(Ir::LiteralInt(2)) }
            );
        }
        other => panic!("unexpected {:?}", other),
    }
}

#[test]
fn let_outside_block_has_nop_body() {
    let e = Ast::Let { e1: boxed(Ast::LiteralInt(1)), binding: "z".to_string() };
    assert_eq!(
        e.desugar(),
        Ir::Let { e1: ir(Ir::LiteralInt(1)), binding: "z".to_string(), e2: ir(Ir::Nop) }
    );
}

#[test]
fn demo_program_infers_nothing() {
    let mut supply = Supply::new();
    let mut env = Environment::new();
    env.insert(
        "len".to_string(),
        Scheme { quantified: vec![], body: Type::F(Box::new(Type::Str), Box::new(Type::Int)) },
    );
    let a = fresh_type_id(&mut supply);
    env.insert(
        "print".to_string(),
        Scheme {
            quantified: vec![a],
            body: Type::F(Box::new(Type::Unknown(a)), Box::new(Type::Nothing)),
        },
    );
    let f1 = Ast::Fn {
        fn_name: "f1".to_string(),
        parameter: "x".to_string(),
        body: boxed(Ast::Add(
            boxed(id("x")),
            boxed(Ast::Add(
                boxed(Ast::LiteralInt(1)),
                boxed(Ast::App { e1: boxed(id("len")), e2: boxed(Ast::LiteralStr("test".to_string())) }),
            )),
        )),
    };
    let f0 = Ast::Fn {
        fn_name: "f0".to_string(),
        parameter: "x".to_string(),
        body: boxed(Ast::Do(vec![f1, Ast::App { e1: boxed(id("f1")), e2: boxed(id("x")) }])),
    };
    let program = Ast::Do(vec![
        f0,
        Ast::App { e1: boxed(id("print")), e2: boxed(Ast::LiteralStr("test".to_string())) },
        Ast::App {
            e1: boxed(id("print")),
            e2: boxed(Ast::App { e1: boxed(id("f0")), e2: boxed(Ast::LiteralInt(10)) }),
        },
    ]);
    let (_, typed) = infer_type(&env, program.desugar(), &mut supply).unwrap();
    assert_eq!(*typed.ty(), Type::Nothing);
}
