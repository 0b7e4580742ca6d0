//! The lexer: characters in, tokens with their line and offset out.
//!
//! Letters, digits, `_` and `-` gather into a word, which whitespace or a
//! punctuation mark ends. A finished word becomes an integer if `i32::from_str`
//! takes it, else a real number if `f64::from_str` takes it, else a name. A
//! `-` alone in the word followed by `>` is the function arrow. A newline only
//! counts lines. Characters the language has no use for are reported and
//! skipped; the lexer itself never fails.
use vstd::prelude::*;
use crate::chars::{char_is_alnum, char_is_space, is_alnum, is_space, string_of};
use crate::numeric::{int_text, is_real, is_real_text, read_int};

verus! {

#[derive(Debug, PartialEq)]
pub enum Lexeme {
    Int(i32),
    Name(String),
    /// A real number, kept as the text it was written with.
    Real(String),
    Equal,
    FnArrow,
    ParenL,
    ParenR,
    Colon,
    SemiColon,
    FnSlash,
    Quote,
    Comma,
}

pub ghost enum LexemeView {
    Int(i32),
    Name(Seq<char>),
    Real(Seq<char>),
    Equal,
    FnArrow,
    ParenL,
    ParenR,
    Colon,
    SemiColon,
    FnSlash,
    Quote,
    Comma,
}

impl View for Lexeme {
    type V = LexemeView;

    open spec fn view(&self) -> LexemeView {
        match self {
            Lexeme::Int(n) => LexemeView::Int(*n),
            Lexeme::Name(s) => LexemeView::Name(s@),
            Lexeme::Real(s) => LexemeView::Real(s@),
            Lexeme::Equal => LexemeView::Equal,
            Lexeme::FnArrow => LexemeView::FnArrow,
            Lexeme::ParenL => LexemeView::ParenL,
            Lexeme::ParenR => LexemeView::ParenR,
            Lexeme::Colon => LexemeView::Colon,
            Lexeme::SemiColon => LexemeView::SemiColon,
            Lexeme::FnSlash => LexemeView::FnSlash,
            Lexeme::Quote => LexemeView::Quote,
            Lexeme::Comma => LexemeView::Comma,
        }
    }
}

/// A lexeme with the text it was read from, the line it stands on (counted
/// from 0) and the offset, counted in characters from 1, of the character at
/// which it was recognized.
#[derive(Debug, PartialEq)]
pub struct Token {
    pub lex: Lexeme,
    pub text: String,
    pub line: usize,
    pub pos: usize,
}

pub ghost struct TokenView {
    pub lex: LexemeView,
    pub text: Seq<char>,
    pub line: nat,
    pub pos: nat,
}

impl View for Token {
    type V = TokenView;

    open spec fn view(&self) -> TokenView {
        TokenView { lex: self.lex@, text: self.text@, line: self.line as nat, pos: self.pos as nat }
    }
}

pub open spec fn token_views(ts: Seq<Token>) -> Seq<TokenView> {
    ts.map_values(|t: Token| t@)
}

/// A character that the lexer reports and skips.
#[derive(Debug, Clone, Copy, PartialEq, Eq, Structural)]
pub enum LexWarning {
    /// A character outside the language's alphabet.
    UnsupportedChar { ch: char, line: usize, pos: usize },
    /// A `>` that does not close a function arrow.
    StrayArrowHead { line: usize, pos: usize },
}

/// What the lexer hands on: the tokens in order, and what it skipped.
pub struct Tokens {
    pub tokens: Vec<Token>,
    pub warnings: Vec<LexWarning>,
}

/// The lexeme that a finished word stands for.
pub open spec fn word_lexeme(w: Seq<char>) -> LexemeView {
    match int_text(w) {
        Some(n) => LexemeView::Int(n),
        None => if is_real_text(w) {
            LexemeView::Real(w)
        } else {
            LexemeView::Name(w)
        },
    }
}

/// The tokens that ending the pending word adds: none for an empty word.
pub open spec fn flushed(w: Seq<char>, line: nat, pos: nat) -> Seq<TokenView> {
    if w.len() == 0 {
        seq![]
    } else {
        seq![TokenView { lex: word_lexeme(w), text: w, line, pos }]
    }
}

/// The lexeme of a single-character punctuation mark that ends a word.
pub open spec fn punctuation(c: char) -> Option<LexemeView> {
    if c == ';' {
        Some(LexemeView::SemiColon)
    } else if c == ':' {
        Some(LexemeView::Colon)
    } else if c == '(' {
        Some(LexemeView::ParenL)
    } else if c == ')' {
        Some(LexemeView::ParenR)
    } else if c == '"' {
        Some(LexemeView::Quote)
    } else if c == ',' {
        Some(LexemeView::Comma)
    } else if c == '=' {
        Some(LexemeView::Equal)
    } else {
        None
    }
}

pub open spec fn is_word_char(c: char) -> bool {
    is_alnum(c) || c == '_' || c == '-'
}

/// The lexer's state after some characters: tokens so far, the pending word,
/// the line, and the warnings so far.
pub ghost struct Scan {
    pub tokens: Seq<TokenView>,
    pub word: Seq<char>,
    pub line: nat,
    pub warnings: Seq<LexWarning>,
}

pub open spec fn one(lex: LexemeView, text: Seq<char>, line: nat, pos: nat) -> TokenView {
    TokenView { lex, text, line, pos }
}

/// One character, the `pos`-th of the input, read in state `st`.
pub open spec fn step(st: Scan, c: char, pos: nat) -> Scan {
    if c == '\n' {
        Scan { line: st.line + 1, ..st }
    } else if c == '\\' {
        Scan { tokens: st.tokens.push(one(LexemeView::FnSlash, seq![c], st.line, pos)), ..st }
    } else if is_space(c) {
        Scan { tokens: st.tokens + flushed(st.word, st.line, pos), word: seq![], ..st }
    } else if punctuation(c) is Some {
        Scan {
            tokens: (st.tokens + flushed(st.word, st.line, pos)).push(
                one(punctuation(c)->0, seq![c], st.line, pos),
            ),
            word: seq![],
            ..st
        }
    } else if c == '>' {
        if st.word == seq!['-'] {
            Scan {
                tokens: st.tokens.push(one(LexemeView::FnArrow, seq!['-', '>'], st.line, pos)),
                word: seq![],
                ..st
            }
        } else {
            Scan {
                tokens: st.tokens + flushed(st.word, st.line, pos),
                word: seq![],
                warnings: st.warnings.push(
                    LexWarning::StrayArrowHead { line: st.line as usize, pos: pos as usize },
                ),
                ..st
            }
        }
    } else if is_word_char(c) {
        Scan { word: st.word.push(c), ..st }
    } else {
        Scan {
            warnings: st.warnings.push(
                LexWarning::UnsupportedChar { ch: c, line: st.line as usize, pos: pos as usize },
            ),
            ..st
        }
    }
}

/// The state after the first `n` characters of the input.
pub open spec fn scan(input: Seq<char>, n: nat) -> Scan
    decreases n,
{
    if n == 0 || n > input.len() {
        Scan { tokens: seq![], word: seq![], line: 0, warnings: seq![] }
    } else {
        step(scan(input, (n - 1) as nat), input[n - 1], n)
    }
}

/// The tokens of the whole input; the word pending at its end is ended too.
pub open spec fn lex_tokens(input: Seq<char>) -> Seq<TokenView> {
    let st = scan(input, input.len());
    st.tokens + flushed(st.word, st.line, input.len())
}

pub open spec fn lex_warnings(input: Seq<char>) -> Seq<LexWarning> {
    scan(input, input.len()).warnings
}

fn push_token(tokens: &mut Vec<Token>, lex: Lexeme, text: String, line: usize, pos: usize)
    ensures
        token_views(final(tokens)@) == token_views(old(tokens)@).push(
            TokenView { lex: lex@, text: text@, line: line as nat, pos: pos as nat },
        ),
{
    let t = Token { lex, text, line, pos };
    let ghost tv = t@;
    tokens.push(t);
    assert(token_views(final(tokens)@) =~= token_views(old(tokens)@).push(tv));
}

/// Ends the pending word: it becomes at most one token, and the word is emptied.
fn flush(word: &mut Vec<char>, tokens: &mut Vec<Token>, line: usize, pos: usize)
    ensures
        token_views(final(tokens)@) == token_views(old(tokens)@) + flushed(
            old(word)@,
            line as nat,
            pos as nat,
        ),
        final(word)@ == Seq::<char>::empty(),
{
    let ghost before = token_views(tokens@);
    if word.len() > 0 {
        let text = string_of(word);
        match read_int(word) {
            Some(n) => push_token(tokens, Lexeme::Int(n), text, line, pos),
            None => if is_real(word) {
                let r = string_of(word);
                push_token(tokens, Lexeme::Real(r), text, line, pos);
            } else {
                let r = string_of(word);
                push_token(tokens, Lexeme::Name(r), text, line, pos);
            },
        }
    }
    assert(token_views(tokens@) =~= before + flushed(old(word)@, line as nat, pos as nat));
    *word = Vec::new();
}

fn punctuation_of(c: char) -> (r: Option<Lexeme>)
    ensures
        match r {
            Some(l) => punctuation(c) == Some(l@),
            None => punctuation(c) is None,
        },
{
    if c == ';' {
        Some(Lexeme::SemiColon)
    } else if c == ':' {
        Some(Lexeme::Colon)
    } else if c == '(' {
        Some(Lexeme::ParenL)
    } else if c == ')' {
        Some(Lexeme::ParenR)
    } else if c == '"' {
        Some(Lexeme::Quote)
    } else if c == ',' {
        Some(Lexeme::Comma)
    } else if c == '=' {
        Some(Lexeme::Equal)
    } else {
        None
    }
}

/// Splits the characters into tokens.
pub fn tokenize(input: &[char]) -> (r: Tokens)
    ensures
        token_views(r.tokens@) == lex_tokens(input@),
        r.warnings@ == lex_warnings(input@),
{
    let mut tokens: Vec<Token> = Vec::new();
    let mut warnings: Vec<LexWarning> = Vec::new();
    let mut word: Vec<char> = Vec::new();
    let mut line: usize = 0;
    let mut i: usize = 0;
    assert(token_views(tokens@) =~= seq![]);
    while i < input.len()
        invariant
            i <= input@.len(),
            line <= i,
            token_views(tokens@) == scan(input@, i as nat).tokens,
            word@ == scan(input@, i as nat).word,
            line as nat == scan(input@, i as nat).line,
            warnings@ == scan(input@, i as nat).warnings,
        decreases input@.len() - i,
    {
        let c = input[i];
        let pos = i + 1;
        let ghost st = scan(input@, i as nat);
        assert(scan(input@, pos as nat) == step(st, c, pos as nat));
        if c == '\n' {
            line = line + 1;
        } else if c == '\\' {
            let cs = vec![c];
            assert(cs@ == seq![c]);
            let text = string_of(&cs);
            push_token(&mut tokens, Lexeme::FnSlash, text, line, pos);
        } else if char_is_space(c) {
            flush(&mut word, &mut tokens, line, pos);
        } else if let Some(l) = punctuation_of(c) {
            flush(&mut word, &mut tokens, line, pos);
            let cs = vec![c];
            assert(cs@ == seq![c]);
            let text = string_of(&cs);
            push_token(&mut tokens, l, text, line, pos);
            assert(token_views(tokens@) == scan(input@, pos as nat).tokens);
        } else if c == '>' {
            if word.len() == 1 && word[0] == '-' {
                assert(word@ =~= seq!['-']);
                let cs = vec!['-', '>'];
                assert(cs@ == seq!['-', '>']);
                let text = string_of(&cs);
                push_token(&mut tokens, Lexeme::FnArrow, text, line, pos);
                word = Vec::new();
            } else {
                assert(word@ != seq!['-'] || word@[0] != '-');
                flush(&mut word, &mut tokens, line, pos);
                warnings.push(LexWarning::StrayArrowHead { line, pos });
            }
        } else if char_is_alnum(c) || c == '_' || c == '-' {
            word.push(c);
        } else {
            warnings.push(LexWarning::UnsupportedChar { ch: c, line, pos });
        }
        i = i + 1;
    }
    let n = input.len();
    flush(&mut word, &mut tokens, line, n);
    Tokens { tokens, warnings }
}

} // verus!
