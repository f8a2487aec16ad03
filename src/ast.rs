use vstd::prelude::*;

use crate::ir::Ir;

verus! {

broadcast use vstd::std_specs::vec::group_vec_axioms;

/// The surface language: the core language with named functions and statement blocks.
#[derive(Debug)]
pub enum Ast {
    LiteralStr(String),
    LiteralInt(i64),
    Id(String),
    App { e1: Box<Ast>, e2: Box<Ast> },
    Lam { binding: String, body: Box<Ast> },
    Let { e1: Box<Ast>, binding: String },
    Fn { fn_name: String, parameter: String, body: Box<Ast> },
    Add(Box<Ast>, Box<Ast>),
    Do(Vec<Ast>),
}

/// The core expression that a surface expression stands for.
pub open spec fn desugar_spec(a: Ast) -> Ir
    decreases a,
{
    match a {
        Ast::LiteralInt(x) => Ir::LiteralInt(x),
        Ast::LiteralStr(x) => Ir::LiteralStr(x),
        Ast::Id(x) => Ir::Id(x),
        Ast::App { e1, e2 } => Ir::App {
            e1: Box::new(desugar_spec(*e1)),
            e2: Box::new(desugar_spec(*e2)),
        },
        Ast::Lam { binding, body } => Ir::Lam { binding, body: Box::new(desugar_spec(*body)) },
        Ast::Let { e1, binding } => Ir::Let {
            e1: Box::new(desugar_spec(*e1)),
            binding,
            e2: Box::new(Ir::Nop),
        },
        Ast::Add(e1, e2) => Ir::Add(Box::new(desugar_spec(*e1)), Box::new(desugar_spec(*e2))),
        Ast::Fn { fn_name, parameter, body } => Ir::Let {
            e1: Box::new(Ir::Lam { binding: parameter, body: Box::new(desugar_spec(*body)) }),
            binding: fn_name,
            e2: Box::new(Ir::Nop),
        },
        Ast::Do(v) => desugar_statements_spec(v@),
    }
}

/// A block: each `Let` or `Fn` statement scopes over the statements after it, and the other
/// statements are sequenced; the empty block is `Nop`.
pub open spec fn desugar_statements_spec(stmts: Seq<Ast>) -> Ir
    decreases stmts,
{
    if stmts.len() == 0 {
        Ir::Nop
    } else {
        let rest = desugar_statements_spec(stmts.drop_first());
        match stmts[0] {
            Ast::Let { e1, binding } => Ir::Let {
                e1: Box::new(desugar_spec(*e1)),
                binding,
                e2: Box::new(rest),
            },
            Ast::Fn { fn_name, parameter, body } => Ir::Let {
                e1: Box::new(Ir::Lam { binding: parameter, body: Box::new(desugar_spec(*body)) }),
                binding: fn_name,
                e2: Box::new(rest),
            },
            _ => if rest is Nop {
                desugar_spec(stmts[0])
            } else {
                Ir::Sequence(Box::new(desugar_spec(stmts[0])), Box::new(rest))
            },
        }
    }
}

impl Ast {
    /// Rewrites the expression in the core language.
    pub fn desugar(self) -> (r: Ir)
        ensures
            r == desugar_spec(self),
        decreases self,
    {
        match self {
            Ast::LiteralInt(x) => Ir::LiteralInt(x),
            Ast::LiteralStr(x) => Ir::LiteralStr(x),
            Ast::Id(x) => Ir::Id(x),
            Ast::App { e1, e2 } => Ir::App {
                e1: Box::new((*e1).desugar()),
                e2: Box::new((*e2).desugar()),
            },
            Ast::Lam { binding, body } => Ir::Lam { binding, body: Box::new((*body).desugar()) },
            Ast::Let { e1, binding } => Ir::Let {
                e1: Box::new((*e1).desugar()),
                binding,
                e2: Box::new(Ir::Nop),
            },
            Ast::Add(e1, e2) => Ir::Add(Box::new((*e1).desugar()), Box::new((*e2).desugar())),
            Ast::Fn { fn_name, parameter, body } => Ir::Let {
                e1: Box::new(Ir::Lam { binding: parameter, body: Box::new((*body).desugar()) }),
                binding: fn_name,
                e2: Box::new(Ir::Nop),
            },
            Ast::Do(v) => desugar_statements(v),
        }
    }
}

/// Rewrites a block of statements in the core language, from the last statement back.
pub fn desugar_statements(stmts: Vec<Ast>) -> (r: Ir)
    ensures
        r == desugar_statements_spec(stmts@),
    decreases stmts,
{
    let ghost all = stmts@;
    let mut rest = stmts;
    let mut acc = Ir::Nop;
    assert(all.skip(all.len() as int) =~= Seq::<Ast>::empty());
    assert(all.take(all.len() as int) =~= all);
    while rest.len() > 0
        invariant
            rest.len() <= all.len(),
            rest@ == all.take(rest.len() as int),
            acc == desugar_statements_spec(all.skip(rest.len() as int)),
            all == stmts@,
        decreases rest.len(),
    {
        let ghost k = rest.len() - 1;
        let ast = rest.pop().unwrap();
        assert(ast == all[k]);
        assert(all.skip(k).drop_first() =~= all.skip(k + 1));
        assert(all.skip(k)[0] == all[k]);
        assert(rest@ =~= all.take(k));
        proof {
            assert(decreases_to!(stmts => stmts@));
            assert(decreases_to!(stmts@ => stmts@[k]));
        }
        acc = match ast {
            Ast::Let { e1, binding } => Ir::Let {
                e1: Box::new((*e1).desugar()),
                binding,
                e2: Box::new(acc),
            },
            Ast::Fn { fn_name, parameter, body } => Ir::Let {
                e1: Box::new(Ir::Lam { binding: parameter, body: Box::new((*body).desugar()) }),
                binding: fn_name,
                e2: Box::new(acc),
            },
            other => {
                let ir = other.desugar();
                match acc {
                    Ir::Nop => ir,
                    _ => Ir::Sequence(Box::new(ir), Box::new(acc)),
                }
            },
        };
    }
    assert(all.skip(0) =~= all);
    acc
}

} // verus!
