//! The definitions that exist before any source is read.
use vstd::prelude::*;
use crate::syntax::{Closure, Def, DefView, Expr, ExprView, MagicExpr, Type};

verus! {

pub open spec fn int_to_int() -> Type {
    Type::Fn(Box::new(Type::Int), Box::new(Type::Int))
}

pub open spec fn int_to_int_to_int() -> Type {
    Type::Fn(Box::new(Type::Int), Box::new(int_to_int()))
}

/// `add : Int -> Int -> Int`, two nested closures of one parameter each
/// around the built-in addition.
pub open spec fn add_def() -> DefView {
    DefView {
        name: "add"@,
        def_type: int_to_int_to_int(),
        body: ExprView::Closure {
            param: "x"@,
            def: Box::new(
                ExprView::Closure {
                    param: "y"@,
                    def: Box::new(ExprView::Magic(MagicExpr::AddX)),
                    cl_type: int_to_int(),
                },
            ),
            cl_type: int_to_int_to_int(),
        },
    }
}

fn int_to_int_exec() -> (r: Type)
    ensures
        r == int_to_int(),
{
    Type::Fn(Box::new(Type::Int), Box::new(Type::Int))
}

/// The built-in definitions, in the order in which names resolve against them.
pub fn builtin_defs() -> (r: Vec<Def>)
    ensures
        r@.len() == 1,
        r@[0]@ == add_def(),
{
    let inner = Closure {
        param: String::from_str("y"),
        def: Box::new(Expr::Magic(MagicExpr::AddX)),
        cl_type: int_to_int_exec(),
    };
    let outer = Closure {
        param: String::from_str("x"),
        def: Box::new(Expr::ClosureExpr(inner)),
        cl_type: Type::Fn(Box::new(Type::Int), Box::new(int_to_int_exec())),
    };
    let add = Def {
        name: String::from_str("add"),
        def_type: Type::Fn(Box::new(Type::Int), Box::new(int_to_int_exec())),
        body: Box::new(Expr::ClosureExpr(outer)),
    };
    proof {
        reveal_with_fuel(crate::syntax::expr_view, 3);
    }
    let mut defs: Vec<Def> = Vec::new();
    defs.push(add);
    defs
}

} // verus!
