use hm_front::lexer::{tokenize, LexWarning, Lexeme, Token};

fn chars(s: &str) -> Vec<char> {
    s.chars().collect()
}

fn lexemes(s: &str) -> Vec<Lexeme> {
    tokenize(&chars(s)).tokens.into_iter().map(|t| t.lex).collect()
}

fn name(s: &str) -> Lexeme {
    Lexeme::Name(s.to_string())
}

#[test]
fn definition_scenario_tokens() {
    let out = tokenize(&chars("x : Int = 5;"));
    let lex: Vec<&Lexeme> = out.tokens.iter().map(|t| &t.lex).collect();
    assert_eq!(
        lex,
        vec![
            &name("x"),
            &Lexeme::Colon,
            &name("Int"),
            &Lexeme::Equal,
            &Lexeme::Int(5),
            &Lexeme::SemiColon
        ]
    );
    assert!(out.warnings.is_empty());
    let at: Vec<(usize, usize)> = out.tokens.iter().map(|t| (t.line, t.pos)).collect();
    assert_eq!(at, vec![(0, 2), (0, 3), (0, 8), (0, 9), (0, 12), (0, 12)]);
    assert_eq!(out.tokens[2].text, "Int");
}

#[test]
fn text_literal_tokens() {
    let lex = lexemes("s : Txt = \"hi\";");
    assert_eq!(
        lex,
        vec![
            name("s"),
            Lexeme::Colon,
            name("Txt"),
            Lexeme::Equal,
            Lexeme::Quote,
            name("hi"),
            Lexeme::Quote,
            Lexeme::SemiColon
        ]
    );
}

#[test]
fn bare_arrow_head_warns_and_scanning_goes_on() {
    let out = tokenize(&chars("a > b"));
    let lex: Vec<&Lexeme> = out.tokens.iter().map(|t| &t.lex).collect();
    assert_eq!(lex, vec![&name("a"), &name("b")]);
    assert_eq!(out.warnings, vec![LexWarning::StrayArrowHead { line: 0, pos: 3 }]);
}

#[test]
fn arrow_head_after_a_longer_word_warns() {
    let out = tokenize(&chars("a->b"));
    let lex: Vec<&Lexeme> = out.tokens.iter().map(|t| &t.lex).collect();
    assert_eq!(lex, vec![&name("a-"), &name("b")]);
    assert_eq!(out.warnings, vec![LexWarning::StrayArrowHead { line: 0, pos: 3 }]);
}

#[test]
fn function_arrow() {
    let out = tokenize(&chars("Int -> Txt"));
    let lex: Vec<&Lexeme> = out.tokens.iter().map(|t| &t.lex).collect();
    assert_eq!(lex, vec![&name("Int"), &Lexeme::FnArrow, &name("Txt")]);
    assert_eq!(out.tokens[1].text, "->");
    assert!(out.warnings.is_empty());
}

#[test]
fn unsupported_character_is_skipped_with_a_warning() {
    let out = tokenize(&chars("x @ y"));
    let lex: Vec<&Lexeme> = out.tokens.iter().map(|t| &t.lex).collect();
    assert_eq!(lex, vec![&name("x"), &name("y")]);
    assert_eq!(
        out.warnings,
        vec![LexWarning::UnsupportedChar { ch: '@', line: 0, pos: 3 }]
    );
}

#[test]
fn newline_counts_lines_only() {
    let out = tokenize(&chars("a;\nb\nc;"));
    let got: Vec<(&Lexeme, usize)> = out.tokens.iter().map(|t| (&t.lex, t.line)).collect();
    assert_eq!(
        got,
        vec![
            (&name("a"), 0),
            (&Lexeme::SemiColon, 0),
            (&name("bc"), 2),
            (&Lexeme::SemiColon, 2)
        ]
    );
}

#[test]
fn word_at_end_of_input_is_kept() {
    assert_eq!(lexemes("abc"), vec![name("abc")]);
    assert_eq!(lexemes(""), Vec::<Lexeme>::new());
    assert_eq!(lexemes("  \t "), Vec::<Lexeme>::new());
}

#[test]
fn whitespace_of_every_kind_ends_a_word() {
    assert_eq!(lexemes("a\tb\u{3000}c"), vec![name("a"), name("b"), name("c")]);
}

#[test]
fn letters_beyond_ascii_stay_in_words() {
    assert_eq!(lexemes("caf\u{e9} \u{3b1}1"), vec![name("caf\u{e9}"), name("\u{3b1}1")]);
}

#[test]
fn integers_and_reals() {
    assert_eq!(
        lexemes("12 -7 007 2147483647 -2147483648 2147483648 1e5 2E-3 inf NaN -Infinity"),
        vec![
            Lexeme::Int(12),
            Lexeme::Int(-7),
            Lexeme::Int(7),
            Lexeme::Int(2147483647),
            Lexeme::Int(-2147483648),
            Lexeme::Real("2147483648".to_string()),
            Lexeme::Real("1e5".to_string()),
            Lexeme::Real("2E-3".to_string()),
            Lexeme::Real("inf".to_string()),
            Lexeme::Real("NaN".to_string()),
            Lexeme::Real("-Infinity".to_string()),
        ]
    );
}

#[test]
fn words_that_are_not_numbers() {
    assert_eq!(
        lexemes("- 1e e5 infin 12a x-1 _"),
        vec![
            name("-"),
            name("1e"),
            name("e5"),
            name("infin"),
            name("12a"),
            name("x-1"),
            name("_")
        ]
    );
}

#[test]
fn lambda_marker_does_not_end_a_word() {
    let out = tokenize(&chars("ab\\cd"));
    let lex: Vec<&Lexeme> = out.tokens.iter().map(|t| &t.lex).collect();
    assert_eq!(lex, vec![&Lexeme::FnSlash, &name("abcd")]);
}

#[test]
fn punctuation_marks() {
    assert_eq!(
        lexemes("(a,b):=;"),
        vec![
            Lexeme::ParenL,
            name("a"),
            Lexeme::Comma,
            name("b"),
            Lexeme::ParenR,
            Lexeme::Colon,
            Lexeme::Equal,
            Lexeme::SemiColon
        ]
    );
}

fn spelled(tokens: &[Token]) -> String {
    tokens
        .iter()
        .filter(|t| t.lex != Lexeme::FnSlash)
        .map(|t| t.text.clone())
        .collect()
}

#[test]
fn every_kept_character_reaches_a_token() {
    let src = "f : Int -> Int = \\x y = add 5;\n @ a>b 1e3 \"hi\"";
    let input = chars(src);
    let out = tokenize(&input);
    let warned: Vec<usize> = out
        .warnings
        .iter()
        .map(|w| match w {
            LexWarning::UnsupportedChar { pos, .. } => *pos,
            LexWarning::StrayArrowHead { pos, .. } => *pos,
        })
        .collect();
    let kept: String = input
        .iter()
        .enumerate()
        .filter(|(i, c)| !c.is_whitespace() && **c != '\\' && !warned.contains(&(i + 1)))
        .map(|(_, c)| *c)
        .collect();
    assert_eq!(spelled(&out.tokens), kept);
    assert_eq!(warned, vec![33, 36]);
    let slashes = out.tokens.iter().filter(|t| t.lex == Lexeme::FnSlash).count();
    assert_eq!(slashes, 1);
}
