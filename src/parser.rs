//! The parser. Each part reads from a cursor into the tokens and, on success,
//! returns what it read with the index of the first token it did not read.
//! Malformed input in a part is a fatal `ParseError`; at the top level,
//! unexpected tokens are only reported.
use vstd::prelude::*;
use crate::chars::{char_is_lower, is_lower, same_text};
use crate::lexer::{Lexeme, LexemeView, Token, TokenView, token_views};
use crate::syntax::{
    Closure, Def, DefView, ErrorKind, Expr, ExprView, Literal, LiteralView, ParseError, Type,
    def_views, expr_view,
};

verus! {

/// The fatal error of the given kind at token `at`.
pub open spec fn fail<A>(kind: ErrorKind, at: int) -> Result<A, ParseError> {
    Err(ParseError { kind, at: at as usize })
}

/// The built-in type that a type name stands for, if any (`IO` apart).
pub open spec fn primitive_type(w: Seq<char>) -> Option<Type> {
    if w == "Int"@ {
        Some(Type::Int)
    } else if w == "Txt"@ {
        Some(Type::Txt)
    } else if w == "Real"@ {
        Some(Type::Real)
    } else if w == "Bool"@ {
        Some(Type::Bool)
    } else {
        None
    }
}

/// A type starting at token `i`, and the index of the `;` or `=` after it.
///
/// `Type := "Int" | "Txt" | "Real" | "Bool" | "(" ")" | "IO" Type | Type "->" Type`,
/// where `->` groups to the right.
pub open spec fn type_at(toks: Seq<TokenView>, i: int) -> Result<(Type, int), ParseError>
    decreases toks.len() - i, 1int,
{
    if i < 0 || i >= toks.len() {
        fail(ErrorKind::UnexpectedEnd, toks.len() as int)
    } else {
        match toks[i].lex {
            LexemeView::Name(w) => if w == "IO"@ {
                match type_at(toks, i + 1) {
                    Ok((t, e)) => Ok((Type::IO(Box::new(t)), e)),
                    Err(x) => Err(x),
                }
            } else if primitive_type(w) is Some {
                type_after(toks, primitive_type(w)->0, i + 1)
            } else if w.len() == 0 {
                fail(ErrorKind::EmptyTypeName, i)
            } else if is_lower(w[0]) {
                fail(ErrorKind::LowercaseTypeName, i)
            } else {
                fail(ErrorKind::CustomType, i)
            },
            LexemeView::ParenL => if i + 1 >= toks.len() {
                fail(ErrorKind::UnexpectedEnd, toks.len() as int)
            } else if toks[i + 1].lex is ParenR {
                type_after(toks, Type::Unit, i + 2)
            } else {
                fail(ErrorKind::NestedType, i + 1)
            },
            _ => fail(ErrorKind::ExpectedType, i),
        }
    }
}

/// What follows the first part `t` of a type, which ends before token `j`:
/// an arrow and the rest of a function type, or the end of the type.
pub open spec fn type_after(toks: Seq<TokenView>, t: Type, j: int) -> Result<(Type, int), ParseError>
    decreases toks.len() - j, 0int,
{
    if j < 0 || j >= toks.len() {
        fail(ErrorKind::UnexpectedEnd, toks.len() as int)
    } else {
        match toks[j].lex {
            LexemeView::FnArrow => match type_at(toks, j + 1) {
                Ok((c, e)) => Ok((Type::Fn(Box::new(t), Box::new(c)), e)),
                Err(x) => Err(x),
            },
            LexemeView::SemiColon | LexemeView::Equal => Ok((t, j)),
            _ => fail(ErrorKind::ExpectedTypeEnd, j),
        }
    }
}

/// Parses a type annotation at token `i`.
pub fn parse_type(tokens: &Vec<Token>, i: usize) -> (r: Result<(Type, usize), ParseError>)
    ensures
        match type_at(token_views(tokens@), i as int) {
            Ok((t, e)) => r == Ok::<(Type, usize), ParseError>((t, e as usize)),
            Err(x) => r == Err::<(Type, usize), ParseError>(x),
        },
    decreases tokens@.len() - i, 1int,
{
    let ghost toks = token_views(tokens@);
    if i >= tokens.len() {
        return Err(ParseError { kind: ErrorKind::UnexpectedEnd, at: tokens.len() });
    }
    assert(toks[i as int] == tokens@[i as int]@);
    match &tokens[i].lex {
        Lexeme::Name(w) => {
            if same_text(w.as_str(), "IO") {
                match parse_type(tokens, i + 1) {
                    Ok((t, e)) => Ok((Type::IO(Box::new(t)), e)),
                    Err(x) => Err(x),
                }
            } else if same_text(w.as_str(), "Int") {
                type_after_exec(tokens, Type::Int, i + 1)
            } else if same_text(w.as_str(), "Txt") {
                type_after_exec(tokens, Type::Txt, i + 1)
            } else if same_text(w.as_str(), "Real") {
                type_after_exec(tokens, Type::Real, i + 1)
            } else if same_text(w.as_str(), "Bool") {
                type_after_exec(tokens, Type::Bool, i + 1)
            } else if w.as_str().unicode_len() == 0 {
                Err(ParseError { kind: ErrorKind::EmptyTypeName, at: i })
            } else if char_is_lower(w.as_str().get_char(0)) {
                Err(ParseError { kind: ErrorKind::LowercaseTypeName, at: i })
            } else {
                Err(ParseError { kind: ErrorKind::CustomType, at: i })
            }
        },
        Lexeme::ParenL => {
            if i + 1 >= tokens.len() {
                Err(ParseError { kind: ErrorKind::UnexpectedEnd, at: tokens.len() })
            } else {
                assert(toks[i + 1] == tokens@[i + 1]@);
                if let Lexeme::ParenR = tokens[i + 1].lex {
                    type_after_exec(tokens, Type::Unit, i + 2)
                } else {
                    Err(ParseError { kind: ErrorKind::NestedType, at: i + 1 })
                }
            }
        },
        _ => Err(ParseError { kind: ErrorKind::ExpectedType, at: i }),
    }
}

fn type_after_exec(tokens: &Vec<Token>, t: Type, j: usize) -> (r: Result<(Type, usize), ParseError>)
    requires
        j <= tokens@.len(),
    ensures
        match type_after(token_views(tokens@), t, j as int) {
            Ok((t, e)) => r == Ok::<(Type, usize), ParseError>((t, e as usize)),
            Err(x) => r == Err::<(Type, usize), ParseError>(x),
        },
    decreases tokens@.len() - j, 0int,
{
    let ghost toks = token_views(tokens@);
    if j >= tokens.len() {
        return Err(ParseError { kind: ErrorKind::UnexpectedEnd, at: tokens.len() });
    }
    assert(toks[j as int] == tokens@[j as int]@);
    match &tokens[j].lex {
        Lexeme::FnArrow => match parse_type(tokens, j + 1) {
            Ok((c, e)) => Ok((Type::Fn(Box::new(t), Box::new(c)), e)),
            Err(x) => Err(x),
        },
        Lexeme::SemiColon | Lexeme::Equal => Ok((t, j)),
        _ => Err(ParseError { kind: ErrorKind::ExpectedTypeEnd, at: j }),
    }
}

/// A literal starting at token `i`, and the index of the token after it.
pub open spec fn literal_at(toks: Seq<TokenView>, i: int) -> Result<(LiteralView, int), ParseError> {
    if i < 0 || i >= toks.len() {
        fail(ErrorKind::UnexpectedEnd, toks.len() as int)
    } else {
        match toks[i].lex {
            LexemeView::Int(n) => Ok((LiteralView::Int(n), i + 1)),
            LexemeView::Real(s) => Ok((LiteralView::Real(s), i + 1)),
            LexemeView::Name(w) => if w == "True"@ {
                Ok((LiteralView::Bool(true), i + 1))
            } else if w == "False"@ {
                Ok((LiteralView::Bool(false), i + 1))
            } else {
                fail(ErrorKind::NotALiteral, i)
            },
            LexemeView::ParenL => if i + 1 >= toks.len() {
                fail(ErrorKind::UnexpectedEnd, toks.len() as int)
            } else if toks[i + 1].lex is ParenR {
                Ok((LiteralView::Unit, i + 2))
            } else {
                fail(ErrorKind::UnsupportedLiteral, i + 1)
            },
            LexemeView::Quote => if i + 1 >= toks.len() {
                fail(ErrorKind::UnexpectedEnd, toks.len() as int)
            } else if toks[i + 1].lex is Name {
                if i + 2 >= toks.len() {
                    fail(ErrorKind::UnexpectedEnd, toks.len() as int)
                } else if toks[i + 2].lex is Quote {
                    Ok((LiteralView::Txt(toks[i + 1].lex->Name_0), i + 3))
                } else {
                    fail(ErrorKind::UnterminatedText, i + 2)
                }
            } else {
                fail(ErrorKind::UnterminatedText, i + 1)
            },
            _ => fail(ErrorKind::NotALiteral, i),
        }
    }
}

/// Parses a literal at token `i`.
pub fn parse_literal(tokens: &Vec<Token>, i: usize) -> (r: Result<(Literal, usize), ParseError>)
    ensures
        match literal_at(token_views(tokens@), i as int) {
            Ok((l, e)) => r is Ok && r->Ok_0.0@ == l && r->Ok_0.1 == e,
            Err(x) => r == Err::<(Literal, usize), ParseError>(x),
        },
{
    let ghost toks = token_views(tokens@);
    let n = tokens.len();
    if i >= n {
        return Err(ParseError { kind: ErrorKind::UnexpectedEnd, at: n });
    }
    assert(toks[i as int] == tokens@[i as int]@);
    match &tokens[i].lex {
        Lexeme::Int(v) => Ok((Literal::Int(*v), i + 1)),
        Lexeme::Real(s) => Ok((Literal::Real(s.clone()), i + 1)),
        Lexeme::Name(w) => {
            if same_text(w.as_str(), "True") {
                Ok((Literal::Bool(true), i + 1))
            } else if same_text(w.as_str(), "False") {
                Ok((Literal::Bool(false), i + 1))
            } else {
                Err(ParseError { kind: ErrorKind::NotALiteral, at: i })
            }
        },
        Lexeme::ParenL => {
            if i + 1 >= n {
                return Err(ParseError { kind: ErrorKind::UnexpectedEnd, at: n });
            }
            assert(toks[i + 1] == tokens@[i + 1]@);
            if let Lexeme::ParenR = tokens[i + 1].lex {
                Ok((Literal::Unit, i + 2))
            } else {
                Err(ParseError { kind: ErrorKind::UnsupportedLiteral, at: i + 1 })
            }
        },
        Lexeme::Quote => {
            if i + 1 >= n {
                return Err(ParseError { kind: ErrorKind::UnexpectedEnd, at: n });
            }
            assert(toks[i + 1] == tokens@[i + 1]@);
            if let Lexeme::Name(w) = &tokens[i + 1].lex {
                if i + 2 >= n {
                    return Err(ParseError { kind: ErrorKind::UnexpectedEnd, at: n });
                }
                assert(toks[i + 2] == tokens@[i + 2]@);
                if let Lexeme::Quote = tokens[i + 2].lex {
                    Ok((Literal::Txt(w.clone()), i + 3))
                } else {
                    Err(ParseError { kind: ErrorKind::UnterminatedText, at: i + 2 })
                }
            } else {
                Err(ParseError { kind: ErrorKind::UnterminatedText, at: i + 1 })
            }
        },
        _ => Err(ParseError { kind: ErrorKind::NotALiteral, at: i }),
    }
}

/// `k` is the first definition named `name`.
pub open spec fn is_first_def(defs: Seq<DefView>, name: Seq<char>, k: int) -> bool {
    &&& 0 <= k < defs.len()
    &&& defs[k].name == name
    &&& forall|j: int| 0 <= j < k ==> #[trigger] defs[j].name != name
}

/// The first definition named `name`, if there is one.
pub open spec fn lookup(defs: Seq<DefView>, name: Seq<char>) -> Option<int> {
    if exists|k: int| is_first_def(defs, name, k) {
        Some(choose|k: int| is_first_def(defs, name, k))
    } else {
        None
    }
}

/// The value that a definition of a primitive type must have.
pub open spec fn fits_type(body: ExprView, t: Type) -> bool {
    match body {
        ExprView::Literal(l) => match (t, l) {
            (Type::Int, LiteralView::Int(_)) => true,
            (Type::Real, LiteralView::Real(_)) => true,
            (Type::Bool, LiteralView::Bool(_)) => true,
            (Type::Unit, LiteralView::Unit) => true,
            _ => false,
        },
        _ => false,
    }
}

/// An expression starting at token `i`, resolved against `defs`, and the
/// index of the token after it.
///
/// A number is a constant. A name takes the value of the first definition of
/// that name: for a primitive type that value itself, which must be a
/// literal of the type; for a function type the function, after one
/// expression that follows as its argument.
pub open spec fn expr_at(toks: Seq<TokenView>, i: int, defs: Seq<DefView>) -> Result<(ExprView, int), ParseError>
    decreases toks.len() - i,
{
    if i < 0 || i >= toks.len() {
        fail(ErrorKind::UnexpectedEnd, toks.len() as int)
    } else {
        match toks[i].lex {
            LexemeView::Int(n) => Ok((ExprView::Literal(LiteralView::Int(n)), i + 1)),
            LexemeView::Real(s) => Ok((ExprView::Literal(LiteralView::Real(s)), i + 1)),
            LexemeView::Name(w) => match lookup(defs, w) {
                None => fail(ErrorKind::NameNotFound, i),
                Some(k) => {
                    let d = defs[k];
                    match d.def_type {
                        Type::Int | Type::Real | Type::Bool | Type::Unit => if fits_type(d.body, d.def_type) {
                            Ok((d.body, i + 1))
                        } else {
                            fail(ErrorKind::TypeMismatch, i)
                        },
                        Type::Txt => fail(ErrorKind::TextReference, i),
                        Type::Any => fail(ErrorKind::UnresolvedType, i),
                        Type::IO(_) => fail(ErrorKind::IOUnsupported, i),
                        Type::Fn(_, _) => match expr_at(toks, i + 1, defs) {
                            Ok((_, e)) => Ok((d.body, e)),
                            Err(x) => Err(x),
                        },
                    }
                },
            },
            _ => fail(ErrorKind::NotAnExpression, i),
        }
    }
}

/// Finds the first definition named `name`.
pub fn find_def(defs: &Vec<Def>, name: &String) -> (r: Option<usize>)
    ensures
        match r {
            Some(k) => lookup(def_views(defs@), name@) == Some(k as int),
            None => lookup(def_views(defs@), name@) is None,
        },
{
    let ghost ds = def_views(defs@);
    let mut k: usize = 0;
    while k < defs.len()
        invariant
            k <= defs@.len(),
            ds == def_views(defs@),
            forall|j: int| 0 <= j < k ==> #[trigger] ds[j].name != name@,
        decreases defs@.len() - k,
    {
        assert(ds[k as int] == defs@[k as int]@);
        if defs[k].name == *name {
            assert(is_first_def(ds, name@, k as int));
            assert forall|k2: int| is_first_def(ds, name@, k2) implies k2 == k by {
                if k2 > k {
                    assert(ds[k as int].name != name@);
                }
            }
            return Some(k);
        }
        k = k + 1;
    }
    assert(!exists|k2: int| is_first_def(ds, name@, k2));
    None
}

/// Parses an expression at token `i`, resolving names against `defs`.
pub fn parse_expr(tokens: &Vec<Token>, i: usize, defs: &Vec<Def>) -> (r: Result<(Expr, usize), ParseError>)
    ensures
        match expr_at(token_views(tokens@), i as int, def_views(defs@)) {
            Ok((x, e)) => r is Ok && r->Ok_0.0@ == x && r->Ok_0.1 == e,
            Err(x) => r is Err && r->Err_0 == x,
        },
    decreases tokens@.len() - i,
{
    let ghost toks = token_views(tokens@);
    let ghost ds = def_views(defs@);
    let n = tokens.len();
    if i >= n {
        return Err(ParseError { kind: ErrorKind::UnexpectedEnd, at: n });
    }
    assert(toks[i as int] == tokens@[i as int]@);
    match &tokens[i].lex {
        Lexeme::Int(v) => Ok((Expr::Literal(Literal::Int(*v)), i + 1)),
        Lexeme::Real(s) => Ok((Expr::Literal(Literal::Real(s.clone())), i + 1)),
        Lexeme::Name(w) => {
            match find_def(defs, w) {
                None => Err(ParseError { kind: ErrorKind::NameNotFound, at: i }),
                Some(k) => {
                    let d = &defs[k];
                    assert(ds[k as int] == d@);
                    match &d.def_type {
                        Type::Int => match &*d.body {
                            Expr::Literal(Literal::Int(_)) => Ok((d.body.duplicate(), i + 1)),
                            _ => Err(ParseError { kind: ErrorKind::TypeMismatch, at: i }),
                        },
                        Type::Real => match &*d.body {
                            Expr::Literal(Literal::Real(_)) => Ok((d.body.duplicate(), i + 1)),
                            _ => Err(ParseError { kind: ErrorKind::TypeMismatch, at: i }),
                        },
                        Type::Bool => match &*d.body {
                            Expr::Literal(Literal::Bool(_)) => Ok((d.body.duplicate(), i + 1)),
                            _ => Err(ParseError { kind: ErrorKind::TypeMismatch, at: i }),
                        },
                        Type::Unit => match &*d.body {
                            Expr::Literal(Literal::Unit) => Ok((d.body.duplicate(), i + 1)),
                            _ => Err(ParseError { kind: ErrorKind::TypeMismatch, at: i }),
                        },
                        Type::Txt => Err(ParseError { kind: ErrorKind::TextReference, at: i }),
                        Type::Any => Err(ParseError { kind: ErrorKind::UnresolvedType, at: i }),
                        Type::IO(_) => Err(ParseError { kind: ErrorKind::IOUnsupported, at: i }),
                        Type::Fn(_, _) => match parse_expr(tokens, i + 1, defs) {
                            Ok((_, e)) => Ok((d.body.duplicate(), e)),
                            Err(x) => Err(x),
                        },
                    }
                },
            }
        },
        _ => Err(ParseError { kind: ErrorKind::NotAnExpression, at: i }),
    }
}

/// The index of the first token at or after `j` that is not a name.
pub open spec fn names_end(toks: Seq<TokenView>, j: int) -> int
    decreases toks.len() - j,
{
    if 0 <= j < toks.len() && toks[j].lex is Name {
        names_end(toks, j + 1)
    } else {
        j
    }
}

/// A closure of type `t` starting at token `i`, and the index of the token
/// after it: `\`, one or more parameter names, `=`, and an expression. Only
/// the first parameter is kept.
pub open spec fn closure_at(toks: Seq<TokenView>, i: int, t: Type, defs: Seq<DefView>) -> Result<(ExprView, int), ParseError> {
    if i < 0 || i >= toks.len() {
        fail(ErrorKind::UnexpectedEnd, toks.len() as int)
    } else if !(toks[i].lex is FnSlash) {
        fail(ErrorKind::ExpectedLambda, i)
    } else {
        let e = names_end(toks, i + 1);
        if e >= toks.len() {
            fail(ErrorKind::UnexpectedEnd, toks.len() as int)
        } else if e == i + 1 {
            fail(ErrorKind::MissingParameters, i + 1)
        } else if !(toks[e].lex is Equal) {
            fail(ErrorKind::ExpectedClosureBody, e)
        } else {
            match expr_at(toks, e + 1, defs) {
                Ok((body, f)) => Ok((
                    ExprView::Closure {
                        param: toks[i + 1].lex->Name_0,
                        def: Box::new(body),
                        cl_type: t,
                    },
                    f,
                )),
                Err(x) => Err(x),
            }
        }
    }
}

pub proof fn lemma_names_end(toks: Seq<TokenView>, j: int)
    requires
        0 <= j,
    ensures
        j <= names_end(toks, j),
        names_end(toks, j) <= toks.len() || names_end(toks, j) == j,
        forall|m: int| j <= m < names_end(toks, j) ==> #[trigger] toks[m].lex is Name,
        names_end(toks, j) < toks.len() ==> !(toks[names_end(toks, j)].lex is Name),
    decreases toks.len() - j,
{
    if 0 <= j < toks.len() && toks[j].lex is Name {
        lemma_names_end(toks, j + 1);
    }
}

/// Parses a closure of type `t` at token `i`, resolving its body against `defs`.
pub fn parse_closure(tokens: &Vec<Token>, i: usize, t: &Type, defs: &Vec<Def>) -> (r: Result<(Closure, usize), ParseError>)
    ensures
        match closure_at(token_views(tokens@), i as int, *t, def_views(defs@)) {
            Ok((c, e)) => r is Ok && expr_view(Expr::ClosureExpr(r->Ok_0.0)) == c && r->Ok_0.1 == e,
            Err(x) => r is Err && r->Err_0 == x,
        },
{
    let ghost toks = token_views(tokens@);
    let n = tokens.len();
    if i >= n {
        return Err(ParseError { kind: ErrorKind::UnexpectedEnd, at: n });
    }
    assert(toks[i as int] == tokens@[i as int]@);
    if !matches!(tokens[i].lex, Lexeme::FnSlash) {
        return Err(ParseError { kind: ErrorKind::ExpectedLambda, at: i });
    }
    proof {
        lemma_names_end(toks, i + 1);
    }
    let mut j: usize = i + 1;
    while j < n && matches!(tokens[j].lex, Lexeme::Name(_))
        invariant
            i + 1 <= j <= n == toks.len(),
            toks == token_views(tokens@),
            names_end(toks, j as int) == names_end(toks, i + 1),
        decreases n - j,
    {
        assert(toks[j as int] == tokens@[j as int]@);
        j = j + 1;
    }
    if j < n {
        assert(toks[j as int] == tokens@[j as int]@);
    }
    assert(names_end(toks, j as int) == j);
    if j >= n {
        return Err(ParseError { kind: ErrorKind::UnexpectedEnd, at: n });
    }
    if j == i + 1 {
        return Err(ParseError { kind: ErrorKind::MissingParameters, at: i + 1 });
    }
    if !matches!(tokens[j].lex, Lexeme::Equal) {
        return Err(ParseError { kind: ErrorKind::ExpectedClosureBody, at: j });
    }
    assert(toks[i + 1] == tokens@[i + 1]@);
    let param = match &tokens[i + 1].lex {
        Lexeme::Name(p) => p.clone(),
        _ => {
            assert(toks[i + 1].lex is Name);
            return Err(ParseError { kind: ErrorKind::MissingParameters, at: i + 1 });
        },
    };
    match parse_expr(tokens, j + 1, defs) {
        Ok((body, f)) => Ok((Closure { param, def: Box::new(body), cl_type: t.duplicate() }, f)),
        Err(x) => Err(x),
    }
}

pub proof fn lemma_type_advances(toks: Seq<TokenView>, i: int)
    ensures
        type_at(toks, i) is Ok ==> i < type_at(toks, i)->Ok_0.1 < toks.len(),
    decreases toks.len() - i, 1int,
{
    if 0 <= i < toks.len() {
        match toks[i].lex {
            LexemeView::Name(w) => if w == "IO"@ {
                lemma_type_advances(toks, i + 1);
            } else if primitive_type(w) is Some {
                lemma_type_after_advances(toks, primitive_type(w)->0, i + 1);
            },
            LexemeView::ParenL => if i + 1 < toks.len() && toks[i + 1].lex is ParenR {
                lemma_type_after_advances(toks, Type::Unit, i + 2);
            },
            _ => {},
        }
    }
}

pub proof fn lemma_type_after_advances(toks: Seq<TokenView>, t: Type, j: int)
    ensures
        type_after(toks, t, j) is Ok ==> j <= type_after(toks, t, j)->Ok_0.1 < toks.len(),
    decreases toks.len() - j, 0int,
{
    if 0 <= j < toks.len() && toks[j].lex is FnArrow {
        lemma_type_advances(toks, j + 1);
    }
}

pub proof fn lemma_expr_advances(toks: Seq<TokenView>, i: int, defs: Seq<DefView>)
    ensures
        expr_at(toks, i, defs) is Ok ==> i < expr_at(toks, i, defs)->Ok_0.1 <= toks.len(),
    decreases toks.len() - i,
{
    if 0 <= i < toks.len() {
        lemma_expr_advances(toks, i + 1, defs);
    }
}

pub proof fn lemma_closure_advances(toks: Seq<TokenView>, i: int, t: Type, defs: Seq<DefView>)
    ensures
        closure_at(toks, i, t, defs) is Ok ==> i < closure_at(toks, i, t, defs)->Ok_0.1 <= toks.len(),
{
    if 0 <= i < toks.len() && toks[i].lex is FnSlash {
        lemma_names_end(toks, i + 1);
        lemma_expr_advances(toks, names_end(toks, i + 1) + 1, defs);
    }
}

/// Something at the top level that is skipped with a warning.
#[derive(Debug, Clone, Copy, PartialEq, Eq, Structural)]
pub enum ParseWarning {
    /// A `=` while no type has been declared.
    UntypedDefinition { at: usize },
    /// A token that cannot start or continue a definition here.
    UnexpectedToken { at: usize },
}

/// The definitions, warnings and outcome of the top-level scan from token
/// `view` on, given the definitions and warnings so far and the pending name
/// and type.
///
/// A name becomes the pending name; `:` and a type make the type pending; `=`
/// defines the pending name with a value that the pending type selects: a
/// literal for a primitive type, a closure for a function type. A `;` ends a
/// definition. A function arrow here is fatal; any other token, or a `=` with
/// no type declared, is reported and skipped.
pub open spec fn drive(
    toks: Seq<TokenView>,
    defs: Seq<DefView>,
    warnings: Seq<ParseWarning>,
    name: Seq<char>,
    ty: Type,
    view: int,
) -> (Seq<DefView>, Seq<ParseWarning>, Result<(), ParseError>)
    decreases toks.len() - view,
{
    if view < 0 || view >= toks.len() {
        (defs, warnings, Ok(()))
    } else {
        match toks[view].lex {
            LexemeView::Name(w) => drive(toks, defs, warnings, w, ty, view + 1),
            LexemeView::Colon => match type_at(toks, view + 1) {
                Ok((t, e)) => {
                    proof {
                        lemma_type_advances(toks, view + 1);
                    }
                    drive(toks, defs, warnings, name, t, e)
                },
                Err(x) => (defs, warnings, Err(x)),
            },
            LexemeView::SemiColon => drive(toks, defs, warnings, name, ty, view + 1),
            LexemeView::Equal => match ty {
                Type::Int | Type::Txt | Type::Real | Type::Bool | Type::Unit => match literal_at(
                    toks,
                    view + 1,
                ) {
                    Ok((l, e)) => drive(
                        toks,
                        defs.push(DefView { name, def_type: ty, body: ExprView::Literal(l) }),
                        warnings,
                        name,
                        ty,
                        e,
                    ),
                    Err(x) => (defs, warnings, Err(x)),
                },
                Type::Fn(_, _) => match closure_at(toks, view + 1, ty, defs) {
                    Ok((c, e)) => {
                        proof {
                            lemma_closure_advances(toks, view + 1, ty, defs);
                        }
                        drive(
                            toks,
                            defs.push(DefView { name, def_type: ty, body: c }),
                            warnings,
                            name,
                            ty,
                            e,
                        )
                    },
                    Err(x) => (defs, warnings, Err(x)),
                },
                Type::Any => drive(
                    toks,
                    defs,
                    warnings.push(ParseWarning::UntypedDefinition { at: view as usize }),
                    name,
                    ty,
                    view + 1,
                ),
                Type::IO(_) => (defs, warnings, fail(ErrorKind::IOUnsupported, view)),
            },
            LexemeView::FnArrow => (defs, warnings, fail(ErrorKind::ArrowOutsideType, view)),
            _ => drive(
                toks,
                defs,
                warnings.push(ParseWarning::UnexpectedToken { at: view as usize }),
                name,
                ty,
                view + 1,
            ),
        }
    }
}

/// Scans the tokens from index `view` on and appends each definition to
/// `defs`, whose entries names resolve against, first match first. Warnings
/// are appended to `warnings`; a fatal error stops the scan.
pub fn parse(
    tokens: &Vec<Token>,
    defs: &mut Vec<Def>,
    view: usize,
    warnings: &mut Vec<ParseWarning>,
) -> (r: Result<(), ParseError>)
    ensures
        drive(
            token_views(tokens@),
            def_views(old(defs)@),
            old(warnings)@,
            Seq::empty(),
            Type::Any,
            view as int,
        ) == (def_views(final(defs)@), final(warnings)@, r),
{
    let ghost toks = token_views(tokens@);
    let ghost goal = drive(toks, def_views(defs@), warnings@, Seq::empty(), Type::Any, view as int);
    let mut name = String::new();
    let mut ty = Type::Any;
    let mut cur = view;
    let n = tokens.len();
    while cur < n
        invariant
            n == toks.len(),
            toks == token_views(tokens@),
            drive(toks, def_views(defs@), warnings@, name@, ty, cur as int) == goal,
            goal == drive(
                toks,
                def_views(old(defs)@),
                old(warnings)@,
                Seq::empty(),
                Type::Any,
                view as int,
            ),
        decreases n - cur,
    {
        assert(toks[cur as int] == tokens@[cur as int]@);
        match &tokens[cur].lex {
            Lexeme::Name(w) => {
                name = w.clone();
                cur = cur + 1;
            },
            Lexeme::Colon => match parse_type(tokens, cur + 1) {
                Ok((t, e)) => {
                    proof {
                        lemma_type_advances(toks, cur + 1);
                    }
                    ty = t;
                    cur = e;
                },
                Err(x) => {
                    return Err(x);
                },
            },
            Lexeme::SemiColon => {
                cur = cur + 1;
            },
            Lexeme::Equal => match &ty {
                Type::Int | Type::Txt | Type::Real | Type::Bool | Type::Unit => match parse_literal(
                    tokens,
                    cur + 1,
                ) {
                    Ok((l, e)) => {
                        let d = Def {
                            name: name.clone(),
                            def_type: ty.duplicate(),
                            body: Box::new(Expr::Literal(l)),
                        };
                        let ghost before = def_views(defs@);
                        defs.push(d);
                        assert(def_views(defs@) =~= before.push(d@));
                        cur = e;
                    },
                    Err(x) => return Err(x),
                },
                Type::Fn(_, _) => match parse_closure(tokens, cur + 1, &ty, defs) {
                    Ok((c, e)) => {
                        proof {
                            lemma_closure_advances(toks, cur + 1, ty, def_views(defs@));
                        }
                        let d = Def {
                            name: name.clone(),
                            def_type: ty.duplicate(),
                            body: Box::new(Expr::ClosureExpr(c)),
                        };
                        let ghost before = def_views(defs@);
                        defs.push(d);
                        assert(def_views(defs@) =~= before.push(d@));
                        cur = e;
                    },
                    Err(x) => return Err(x),
                },
                Type::Any => {
                    warnings.push(ParseWarning::UntypedDefinition { at: cur });
                    cur = cur + 1;
                },
                Type::IO(_) => {
                    return Err(ParseError { kind: ErrorKind::IOUnsupported, at: cur });
                },
            },
            Lexeme::FnArrow => {
                return Err(ParseError { kind: ErrorKind::ArrowOutsideType, at: cur });
            },
            _ => {
                warnings.push(ParseWarning::UnexpectedToken { at: cur });
                cur = cur + 1;
            },
        }
    }
    Ok(())
}

} // verus!
