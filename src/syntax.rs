//! The trees the parser builds: types, literals, expressions and definitions,
//! each with the mathematical value that contracts speak of.
use vstd::prelude::*;

verus! {

/// A type. Function types nest to the right: `A -> B -> C` is
/// `Fn(A, Fn(B, C))`. `Any` stands for a type not determined yet.
#[derive(Debug, PartialEq)]
pub enum Type {
    Int,
    Txt,
    Real,
    Bool,
    Unit,
    IO(Box<Type>),
    Fn(Box<Type>, Box<Type>),
    Any,
}

impl Type {
    /// A copy of the type.
    pub fn duplicate(&self) -> (r: Type)
        ensures
            r == *self,
        decreases self,
    {
        match self {
            Type::Int => Type::Int,
            Type::Txt => Type::Txt,
            Type::Real => Type::Real,
            Type::Bool => Type::Bool,
            Type::Unit => Type::Unit,
            Type::IO(t) => Type::IO(Box::new(t.duplicate())),
            Type::Fn(d, c) => Type::Fn(Box::new(d.duplicate()), Box::new(c.duplicate())),
            Type::Any => Type::Any,
        }
    }
}

#[derive(Debug, PartialEq)]
pub enum Literal {
    Int(i32),
    Txt(String),
    /// A real number, kept as the text it was written with.
    Real(String),
    Bool(bool),
    Unit,
}

pub ghost enum LiteralView {
    Int(i32),
    Txt(Seq<char>),
    Real(Seq<char>),
    Bool(bool),
    Unit,
}

impl View for Literal {
    type V = LiteralView;

    open spec fn view(&self) -> LiteralView {
        match self {
            Literal::Int(n) => LiteralView::Int(*n),
            Literal::Txt(s) => LiteralView::Txt(s@),
            Literal::Real(s) => LiteralView::Real(s@),
            Literal::Bool(b) => LiteralView::Bool(*b),
            Literal::Unit => LiteralView::Unit,
        }
    }
}

impl Literal {
    /// A copy of the literal.
    pub fn duplicate(&self) -> (r: Literal)
        ensures
            r@ == self@,
    {
        match self {
            Literal::Int(n) => Literal::Int(*n),
            Literal::Txt(s) => Literal::Txt(s.clone()),
            Literal::Real(s) => Literal::Real(s.clone()),
            Literal::Bool(b) => Literal::Bool(*b),
            Literal::Unit => Literal::Unit,
        }
    }
}

/// An operation built into the language rather than written in it.
#[derive(Debug, Clone, Copy, PartialEq, Eq, Structural)]
pub enum MagicExpr {
    AddX,
}

/// A function of one parameter.
#[derive(Debug, PartialEq)]
pub struct Closure {
    pub param: String,
    pub def: Box<Expr>,
    pub cl_type: Type,
}

#[derive(Debug, PartialEq)]
pub enum Expr {
    Literal(Literal),
    ClosureExpr(Closure),
    /// An application of an action to an argument; nothing builds one yet.
    App(Box<Expr>, Box<Expr>),
    Magic(MagicExpr),
}

pub ghost enum ExprView {
    Literal(LiteralView),
    Closure { param: Seq<char>, def: Box<ExprView>, cl_type: Type },
    App(Box<ExprView>, Box<ExprView>),
    Magic(MagicExpr),
}

pub open spec fn expr_view(e: Expr) -> ExprView
    decreases e,
{
    match e {
        Expr::Literal(l) => ExprView::Literal(l@),
        Expr::ClosureExpr(c) => ExprView::Closure {
            param: c.param@,
            def: Box::new(expr_view(*c.def)),
            cl_type: c.cl_type,
        },
        Expr::App(a, b) => ExprView::App(Box::new(expr_view(*a)), Box::new(expr_view(*b))),
        Expr::Magic(m) => ExprView::Magic(m),
    }
}

impl View for Expr {
    type V = ExprView;

    open spec fn view(&self) -> ExprView {
        expr_view(*self)
    }
}

impl Expr {
    /// A copy of the expression.
    pub fn duplicate(&self) -> (r: Expr)
        ensures
            r@ == self@,
        decreases self,
    {
        match self {
            Expr::Literal(l) => Expr::Literal(l.duplicate()),
            Expr::ClosureExpr(c) => Expr::ClosureExpr(
                Closure {
                    param: c.param.clone(),
                    def: Box::new(c.def.duplicate()),
                    cl_type: c.cl_type.duplicate(),
                },
            ),
            Expr::App(a, b) => Expr::App(Box::new(a.duplicate()), Box::new(b.duplicate())),
            Expr::Magic(m) => Expr::Magic(*m),
        }
    }
}

/// A named, typed top-level definition.
#[derive(Debug, PartialEq)]
pub struct Def {
    pub name: String,
    pub def_type: Type,
    pub body: Box<Expr>,
}

pub ghost struct DefView {
    pub name: Seq<char>,
    pub def_type: Type,
    pub body: ExprView,
}

impl View for Def {
    type V = DefView;

    open spec fn view(&self) -> DefView {
        DefView { name: self.name@, def_type: self.def_type, body: self.body@ }
    }
}

pub open spec fn def_views(ds: Seq<Def>) -> Seq<DefView> {
    ds.map_values(|d: Def| d@)
}

/// Why parsing stopped.
#[derive(Debug, Clone, Copy, PartialEq, Eq, Structural)]
pub enum ErrorKind {
    /// The tokens ran out in the middle of a form.
    UnexpectedEnd,
    /// A type name with no characters.
    EmptyTypeName,
    /// A type name that starts with a lowercase letter.
    LowercaseTypeName,
    /// A type name that is not one of the built-in types.
    CustomType,
    /// Parentheses in a type that hold something.
    NestedType,
    /// A token that cannot start a type.
    ExpectedType,
    /// A type followed by something other than `->`, `;` or `=`.
    ExpectedTypeEnd,
    /// Parentheses in a literal that hold something.
    UnsupportedLiteral,
    /// A quote not followed by one word and a closing quote.
    UnterminatedText,
    /// A token that cannot start a literal.
    NotALiteral,
    /// A closure that does not start with `\`.
    ExpectedLambda,
    /// A closure without parameters.
    MissingParameters,
    /// A closure whose parameters are not followed by `=`.
    ExpectedClosureBody,
    /// A name whose definition's value does not have the definition's type.
    TypeMismatch,
    /// A name whose definition has no type yet.
    UnresolvedType,
    /// A name or a definition of an `IO` type; these are not supported yet.
    IOUnsupported,
    /// A name of a `Txt` definition used in an expression; not supported yet.
    TextReference,
    /// A token that cannot start an expression.
    NotAnExpression,
    /// A name that no definition has.
    NameNotFound,
    /// A function arrow outside a type annotation.
    ArrowOutsideType,
}

/// A fatal error, and the index of the token at which it was found (the
/// number of tokens where they ran out).
#[derive(Debug, Clone, Copy, PartialEq, Eq, Structural)]
pub struct ParseError {
    pub kind: ErrorKind,
    pub at: usize,
}

} // verus!
