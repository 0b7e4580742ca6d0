use hm_front::pipeline::front_end;
use hm_front::syntax::{Closure, Def, ErrorKind, Expr, Literal, ParseError, Type};

fn run(src: &str) -> hm_front::pipeline::Program {
    let cs: Vec<char> = src.chars().collect();
    front_end(&cs)
}

#[test]
fn integer_definition_scenario() {
    let p = run("x : Int = 5;");
    assert_eq!(p.outcome, Ok(()));
    assert_eq!(p.defs.len(), 2);
    assert_eq!(
        p.defs[1],
        Def {
            name: "x".to_string(),
            def_type: Type::Int,
            body: Box::new(Expr::Literal(Literal::Int(5))),
        }
    );
    assert!(p.parse_warnings.is_empty());
    assert!(p.lex_warnings.is_empty());
}

#[test]
fn text_definition_scenario() {
    let p = run("s : Txt = \"hi\";");
    assert_eq!(p.outcome, Ok(()));
    assert_eq!(*p.defs[1].body, Expr::Literal(Literal::Txt("hi".to_string())));
}

#[test]
fn lowercase_type_name_stops_the_program() {
    let p = run("t : int = 5;");
    assert_eq!(p.outcome, Err(ParseError { kind: ErrorKind::LowercaseTypeName, at: 2 }));
    assert_eq!(p.defs.len(), 1);
}

#[test]
fn undeclared_name_stops_the_program() {
    let p = run("f : Int -> Int = \\a = y;");
    assert_eq!(p.outcome, Err(ParseError { kind: ErrorKind::NameNotFound, at: 9 }));
}

#[test]
fn closure_definition_uses_earlier_definitions() {
    let p = run("k : Int = 3;\nf : Int -> Int = \\a = k;\ng : Int -> Int -> Int = \\a = add 1;");
    assert_eq!(p.outcome, Ok(()));
    assert_eq!(p.defs.len(), 4);
    assert_eq!(
        p.defs[2],
        Def {
            name: "f".to_string(),
            def_type: Type::Fn(Box::new(Type::Int), Box::new(Type::Int)),
            body: Box::new(Expr::ClosureExpr(Closure {
                param: "a".to_string(),
                def: Box::new(Expr::Literal(Literal::Int(3))),
                cl_type: Type::Fn(Box::new(Type::Int), Box::new(Type::Int)),
            })),
        }
    );
    match &*p.defs[3].body {
        Expr::ClosureExpr(c) => assert_eq!(*c.def, *p.defs[0].body),
        other => panic!("unexpected {:?}", other),
    }
}

#[test]
fn bare_arrow_head_leaves_the_program_intact() {
    let p = run("x : Int = 5; >");
    assert_eq!(p.outcome, Ok(()));
    assert_eq!(p.lex_warnings.len(), 1);
    assert_eq!(p.defs.len(), 2);
}
