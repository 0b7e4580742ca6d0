//! The whole front end: source characters to definitions.
use vstd::prelude::*;
use crate::builtins::{add_def, builtin_defs};
use crate::lexer::{LexWarning, Token, lex_tokens, lex_warnings, token_views, tokenize};
use crate::parser::{ParseWarning, drive, parse};
use crate::syntax::{Def, ParseError, Type, def_views};

verus! {

/// Everything the front end makes of one source text.
pub struct Program {
    pub tokens: Vec<Token>,
    pub lex_warnings: Vec<LexWarning>,
    /// The built-in definitions, then those of the source, in order.
    pub defs: Vec<Def>,
    pub parse_warnings: Vec<ParseWarning>,
    /// `Err` when a fatal error stopped the scan.
    pub outcome: Result<(), ParseError>,
}

/// Lexes the source, then scans its tokens for definitions, with the
/// built-in definitions in place first.
pub fn front_end(source: &[char]) -> (r: Program)
    ensures
        token_views(r.tokens@) == lex_tokens(source@),
        r.lex_warnings@ == lex_warnings(source@),
        drive(lex_tokens(source@), seq![add_def()], seq![], Seq::empty(), Type::Any, 0) == (
            def_views(r.defs@),
            r.parse_warnings@,
            r.outcome,
        ),
{
    let lexed = tokenize(source);
    let mut defs = builtin_defs();
    assert(def_views(defs@) =~= seq![add_def()]);
    let mut parse_warnings: Vec<ParseWarning> = Vec::new();
    let outcome = parse(&lexed.tokens, &mut defs, 0, &mut parse_warnings);
    Program {
        tokens: lexed.tokens,
        lex_warnings: lexed.warnings,
        defs,
        parse_warnings,
        outcome,
    }
}

} // verus!
