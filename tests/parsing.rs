use hm_front::lexer::{tokenize, Token};
use hm_front::parser::{parse, parse_closure, parse_expr, parse_literal, parse_type, ParseWarning};
use hm_front::builtins::builtin_defs;
use hm_front::syntax::{Closure, Def, ErrorKind, Expr, Literal, MagicExpr, ParseError, Type};

fn toks(s: &str) -> Vec<Token> {
    let cs: Vec<char> = s.chars().collect();
    tokenize(&cs).tokens
}

fn fun(a: Type, b: Type) -> Type {
    Type::Fn(Box::new(a), Box::new(b))
}

fn err(kind: ErrorKind, at: usize) -> ParseError {
    ParseError { kind, at }
}

#[test]
fn arrows_group_to_the_right() {
    let t = parse_type(&toks("Int -> Int -> Int;"), 0);
    assert_eq!(t, Ok((fun(Type::Int, fun(Type::Int, Type::Int)), 5)));
    assert_ne!(t, Ok((fun(fun(Type::Int, Type::Int), Type::Int), 5)));
}

#[test]
fn primitive_types() {
    assert_eq!(parse_type(&toks("Int;"), 0), Ok((Type::Int, 1)));
    assert_eq!(parse_type(&toks("Txt ="), 0), Ok((Type::Txt, 1)));
    assert_eq!(parse_type(&toks("Real;"), 0), Ok((Type::Real, 1)));
    assert_eq!(parse_type(&toks("Bool -> Txt ="), 0), Ok((fun(Type::Bool, Type::Txt), 3)));
}

#[test]
fn io_wraps_the_whole_rest() {
    assert_eq!(
        parse_type(&toks("IO Int -> Int ="), 0),
        Ok((Type::IO(Box::new(fun(Type::Int, Type::Int))), 4))
    );
}

#[test]
fn unit_in_type_and_literal_position() {
    assert_eq!(parse_type(&toks("( ) ;"), 0), Ok((Type::Unit, 2)));
    assert_eq!(parse_type(&toks("() -> Int;"), 0), Ok((fun(Type::Unit, Type::Int), 4)));
    assert_eq!(parse_literal(&toks("( )"), 0), Ok((Literal::Unit, 2)));
}

#[test]
fn other_paren_content_is_fatal_in_both_positions() {
    assert_eq!(parse_type(&toks("( Int ) ;"), 0), Err(err(ErrorKind::NestedType, 1)));
    assert_eq!(parse_literal(&toks("( 5 )"), 0), Err(err(ErrorKind::UnsupportedLiteral, 1)));
}

#[test]
fn lowercase_type_name_is_fatal() {
    assert_eq!(parse_type(&toks("int ="), 0), Err(err(ErrorKind::LowercaseTypeName, 0)));
}

#[test]
fn custom_type_name_is_fatal() {
    assert_eq!(parse_type(&toks("Foo ="), 0), Err(err(ErrorKind::CustomType, 0)));
    assert_eq!(parse_type(&toks("_x ="), 0), Err(err(ErrorKind::CustomType, 0)));
}

#[test]
fn type_errors() {
    assert_eq!(parse_type(&toks("Int )"), 0), Err(err(ErrorKind::ExpectedTypeEnd, 1)));
    assert_eq!(parse_type(&toks("Int"), 0), Err(err(ErrorKind::UnexpectedEnd, 1)));
    assert_eq!(parse_type(&toks("5 ;"), 0), Err(err(ErrorKind::ExpectedType, 0)));
    assert_eq!(parse_type(&toks("Int -> ;"), 0), Err(err(ErrorKind::ExpectedType, 2)));
    assert_eq!(parse_type(&toks(""), 0), Err(err(ErrorKind::UnexpectedEnd, 0)));
}

#[test]
fn literals() {
    assert_eq!(parse_literal(&toks("42;"), 0), Ok((Literal::Int(42), 1)));
    assert_eq!(parse_literal(&toks("1e3"), 0), Ok((Literal::Real("1e3".to_string()), 1)));
    assert_eq!(parse_literal(&toks("True"), 0), Ok((Literal::Bool(true), 1)));
    assert_eq!(parse_literal(&toks("False"), 0), Ok((Literal::Bool(false), 1)));
    assert_eq!(
        parse_literal(&toks("\"hi\";"), 0),
        Ok((Literal::Txt("hi".to_string()), 3))
    );
}

#[test]
fn literal_errors() {
    assert_eq!(parse_literal(&toks("\"hi;"), 0), Err(err(ErrorKind::UnterminatedText, 2)));
    assert_eq!(parse_literal(&toks("\" 5 \""), 0), Err(err(ErrorKind::UnterminatedText, 1)));
    assert_eq!(parse_literal(&toks("\"hi"), 0), Err(err(ErrorKind::UnexpectedEnd, 2)));
    assert_eq!(parse_literal(&toks("yes"), 0), Err(err(ErrorKind::NotALiteral, 0)));
    assert_eq!(parse_literal(&toks(";"), 0), Err(err(ErrorKind::NotALiteral, 0)));
}

fn defs_of(src: &str) -> Vec<Def> {
    let mut defs = builtin_defs();
    let mut warnings = Vec::new();
    let r = parse(&toks(src), &mut defs, 0, &mut warnings);
    assert_eq!(r, Ok(()));
    defs
}

#[test]
fn first_definition_of_a_name_wins() {
    let defs = defs_of("x : Int = 5; x : Int = 9;");
    assert_eq!(defs.len(), 3);
    assert_eq!(
        parse_expr(&toks("x"), 0, &defs),
        Ok((Expr::Literal(Literal::Int(5)), 1))
    );
}

#[test]
fn undeclared_name_is_not_found() {
    let defs = builtin_defs();
    assert_eq!(parse_expr(&toks("y"), 0, &defs), Err(err(ErrorKind::NameNotFound, 0)));
}

#[test]
fn numbers_are_constants() {
    let defs = Vec::new();
    assert_eq!(parse_expr(&toks("7"), 0, &defs), Ok((Expr::Literal(Literal::Int(7)), 1)));
    assert_eq!(
        parse_expr(&toks("2e2"), 0, &defs),
        Ok((Expr::Literal(Literal::Real("2e2".to_string())), 1))
    );
    assert_eq!(parse_expr(&toks("="), 0, &defs), Err(err(ErrorKind::NotAnExpression, 0)));
}

#[test]
fn names_resolve_by_their_type() {
    let defs = defs_of("b : Bool = True; u : () = (); r : Real = 1e1; t : Txt = \"w\"; n : Int = True;");
    assert_eq!(parse_expr(&toks("b"), 0, &defs), Ok((Expr::Literal(Literal::Bool(true)), 1)));
    assert_eq!(parse_expr(&toks("u"), 0, &defs), Ok((Expr::Literal(Literal::Unit), 1)));
    assert_eq!(
        parse_expr(&toks("r"), 0, &defs),
        Ok((Expr::Literal(Literal::Real("1e1".to_string())), 1))
    );
    assert_eq!(parse_expr(&toks("t"), 0, &defs), Err(err(ErrorKind::TextReference, 0)));
    assert_eq!(parse_expr(&toks("n"), 0, &defs), Err(err(ErrorKind::TypeMismatch, 0)));
}

#[test]
fn function_name_takes_one_argument() {
    let defs = builtin_defs();
    let (e, end) = parse_expr(&toks("add 5 ;"), 0, &defs).unwrap();
    assert_eq!(end, 2);
    assert_eq!(e, *defs[0].body);
    assert_eq!(parse_expr(&toks("add ;"), 0, &defs), Err(err(ErrorKind::NotAnExpression, 1)));
}

#[test]
fn closure_keeps_its_first_parameter() {
    let t = fun(Type::Int, Type::Int);
    let (c, end) = parse_closure(&toks("\\a b = 5;"), 0, &t, &Vec::new()).unwrap();
    assert_eq!(end, 5);
    assert_eq!(
        c,
        Closure {
            param: "a".to_string(),
            def: Box::new(Expr::Literal(Literal::Int(5))),
            cl_type: fun(Type::Int, Type::Int),
        }
    );
}

#[test]
fn closure_errors() {
    let t = fun(Type::Int, Type::Int);
    let none = Vec::new();
    assert_eq!(parse_closure(&toks("a = 5"), 0, &t, &none), Err(err(ErrorKind::ExpectedLambda, 0)));
    assert_eq!(parse_closure(&toks("\\ = 5"), 0, &t, &none), Err(err(ErrorKind::MissingParameters, 1)));
    assert_eq!(parse_closure(&toks("\\a 5"), 0, &t, &none), Err(err(ErrorKind::ExpectedClosureBody, 2)));
    assert_eq!(parse_closure(&toks("\\a b"), 0, &t, &none), Err(err(ErrorKind::UnexpectedEnd, 3)));
    assert_eq!(parse_closure(&toks("\\a = z"), 0, &t, &none), Err(err(ErrorKind::NameNotFound, 3)));
}

#[test]
fn top_level_warnings_do_not_stop_the_scan() {
    let mut defs = Vec::new();
    let mut warnings = Vec::new();
    let r = parse(&toks("x = 5; , y : Int = 1;"), &mut defs, 0, &mut warnings);
    assert_eq!(r, Ok(()));
    assert_eq!(
        warnings,
        vec![
            ParseWarning::UntypedDefinition { at: 1 },
            ParseWarning::UnexpectedToken { at: 2 },
            ParseWarning::UnexpectedToken { at: 4 }
        ]
    );
    assert_eq!(defs.len(), 1);
    assert_eq!(defs[0].name, "y");
}

#[test]
fn arrow_at_top_level_is_fatal() {
    let mut defs = Vec::new();
    let mut warnings = Vec::new();
    let r = parse(&toks("x -> y"), &mut defs, 0, &mut warnings);
    assert_eq!(r, Err(err(ErrorKind::ArrowOutsideType, 1)));
}

#[test]
fn io_definition_is_unsupported() {
    let mut defs = Vec::new();
    let mut warnings = Vec::new();
    let r = parse(&toks("m : IO Int = 5;"), &mut defs, 0, &mut warnings);
    assert_eq!(r, Err(err(ErrorKind::IOUnsupported, 4)));
    assert!(defs.is_empty());
}

#[test]
fn scan_starts_at_the_given_index() {
    let mut defs = Vec::new();
    let mut warnings = Vec::new();
    let r = parse(&toks("-> x : Int = 3;"), &mut defs, 1, &mut warnings);
    assert_eq!(r, Ok(()));
    assert_eq!(defs.len(), 1);
    assert_eq!(*defs[0].body, Expr::Literal(Literal::Int(3)));
}

#[test]
fn builtin_addition() {
    let defs = builtin_defs();
    assert_eq!(defs.len(), 1);
    assert_eq!(defs[0].name, "add");
    assert_eq!(defs[0].def_type, fun(Type::Int, fun(Type::Int, Type::Int)));
    match &*defs[0].body {
        Expr::ClosureExpr(outer) => {
            assert_eq!(outer.param, "x");
            match &*outer.def {
                Expr::ClosureExpr(inner) => {
                    assert_eq!(inner.param, "y");
                    assert_eq!(*inner.def, Expr::Magic(MagicExpr::AddX));
                    assert_eq!(inner.cl_type, fun(Type::Int, Type::Int));
                }
                other => panic!("unexpected {:?}", other),
            }
        }
        other => panic!("unexpected {:?}", other),
    }
}
