//! Properties of the lexer and the parser that hold for all inputs.
use vstd::prelude::*;
use crate::chars::is_space;
use crate::lexer::{
    LexWarning, LexemeView, Scan, TokenView, flushed, is_word_char, lex_tokens, lex_warnings,
    punctuation, scan, step,
};
use crate::parser::{
    expr_at, fail, fits_type, is_first_def, literal_at, lookup, primitive_type, type_after,
    type_at,
};
use crate::syntax::{DefView, ErrorKind, LiteralView, ParseError, Type};

verus! {

/// The texts of the tokens other than `\`, one after another.
pub open spec fn spelled(toks: Seq<TokenView>) -> Seq<char>
    decreases toks.len(),
{
    if toks.len() == 0 {
        seq![]
    } else {
        let t = toks.last();
        spelled(toks.drop_last()) + if t.lex is FnSlash {
            seq![]
        } else {
            t.text
        }
    }
}

/// How many tokens are `\`.
pub open spec fn slash_tokens(toks: Seq<TokenView>) -> nat
    decreases toks.len(),
{
    if toks.len() == 0 {
        0
    } else {
        slash_tokens(toks.drop_last()) + if toks.last().lex is FnSlash {
            1nat
        } else {
            0nat
        }
    }
}

/// How many of the first `n` characters are `\`.
pub open spec fn backslashes(input: Seq<char>, n: nat) -> nat
    decreases n,
{
    if n == 0 || n > input.len() {
        0
    } else {
        backslashes(input, (n - 1) as nat) + if input[n - 1] == '\\' {
            1nat
        } else {
            0nat
        }
    }
}

pub open spec fn warning_pos(w: LexWarning) -> nat {
    match w {
        LexWarning::UnsupportedChar { pos, .. } => pos as nat,
        LexWarning::StrayArrowHead { pos, .. } => pos as nat,
    }
}

/// Some warning is about the `p`-th character (counted from 1).
pub open spec fn warned(ws: Seq<LexWarning>, p: nat) -> bool {
    exists|k: int| 0 <= k < ws.len() && warning_pos(#[trigger] ws[k]) == p
}

/// The `p`-th character is one a token should hold: not whitespace, not `\`
/// (a token of its own, which does not end a word), and not reported.
pub open spec fn keeps(input: Seq<char>, p: nat, ws: Seq<LexWarning>) -> bool {
    let c = input[p - 1];
    c != '\n' && !is_space(c) && c != '\\' && !warned(ws, p)
}

/// The characters among the first `n` that a token should hold, in order.
pub open spec fn kept(input: Seq<char>, n: nat, ws: Seq<LexWarning>) -> Seq<char>
    decreases n,
{
    if n == 0 || n > input.len() {
        seq![]
    } else {
        kept(input, (n - 1) as nat, ws) + if keeps(input, n, ws) {
            seq![input[n - 1]]
        } else {
            seq![]
        }
    }
}

/// A warning stands at a `>` or at a character the lexer has no use for.
pub open spec fn reported_fairly(input: Seq<char>, w: LexWarning) -> bool {
    let p = warning_pos(w);
    &&& 1 <= p <= input.len()
    &&& {
        let c = input[p - 1];
        ||| c == '>'
        ||| (c != '\n' && !is_space(c) && punctuation(c) is None && c != '\\' && !is_word_char(c))
    }
}

proof fn lemma_kept_same_warnings(input: Seq<char>, n: nat, ws1: Seq<LexWarning>, ws2: Seq<LexWarning>)
    requires
        forall|p: nat| 1 <= p <= n ==> warned(ws1, p) == warned(ws2, p),
    ensures
        kept(input, n, ws1) == kept(input, n, ws2),
    decreases n,
{
    if n > 0 && n <= input.len() {
        lemma_kept_same_warnings(input, (n - 1) as nat, ws1, ws2);
        assert(warned(ws1, n) == warned(ws2, n));
    }
}

proof fn lemma_spelled_push(toks: Seq<TokenView>, t: TokenView)
    ensures
        spelled(toks.push(t)) == spelled(toks) + if t.lex is FnSlash {
            seq![]
        } else {
            t.text
        },
        slash_tokens(toks.push(t)) == slash_tokens(toks) + if t.lex is FnSlash {
            1nat
        } else {
            0nat
        },
{
    assert(toks.push(t).drop_last() == toks);
}

proof fn lemma_spelled_flushed(toks: Seq<TokenView>, w: Seq<char>, line: nat, pos: nat)
    ensures
        spelled(toks + flushed(w, line, pos)) == spelled(toks) + w,
        slash_tokens(toks + flushed(w, line, pos)) == slash_tokens(toks),
{
    if w.len() == 0 {
        assert(toks + flushed(w, line, pos) == toks);
        assert(spelled(toks) + w == spelled(toks));
    } else {
        let t = flushed(w, line, pos)[0];
        assert(toks + flushed(w, line, pos) == toks.push(t));
        lemma_spelled_push(toks, t);
    }
}

/// Whether reading `c` in state `st` gives a warning.
spec fn reported_at(st: Scan, c: char) -> bool {
    &&& c != '\n'
    &&& c != '\\'
    &&& !is_space(c)
    &&& punctuation(c) is None
    &&& if c == '>' {
        st.word != seq!['-']
    } else {
        !is_word_char(c)
    }
}

proof fn lemma_step_warnings(st: Scan, c: char, n: nat)
    requires
        n <= usize::MAX,
    ensures
        ({
            let next = step(st, c, n);
            &&& st.warnings.len() <= next.warnings.len() <= st.warnings.len() + 1
            &&& forall|k: int| 0 <= k < st.warnings.len() ==> next.warnings[k] == st.warnings[k]
            &&& next.warnings.len() == st.warnings.len() + 1 ==> warning_pos(next.warnings.last()) == n
            &&& next.warnings.len() == st.warnings.len() + 1 <==> reported_at(st, c)
            &&& next.warnings.len() == st.warnings.len() + 1 ==> c == '>' || (c != '\n' && !is_space(c) && punctuation(c) is None && c != '\\' && !is_word_char(c))
        }),
{
    let next = step(st, c, n);
    if c == '\n' {
    } else if c == '\\' {
    } else if is_space(c) {
    } else if punctuation(c) is Some {
    } else if c == '>' {
    } else if is_word_char(c) {
    } else {
    }
}

/// What holds of the lexer's state after the first `n` characters.
spec fn scan_keeps_text(input: Seq<char>, n: nat, st: Scan) -> bool {
    &&& spelled(st.tokens) + st.word == kept(input, n, st.warnings)
    &&& slash_tokens(st.tokens) == backslashes(input, n)
    &&& forall|k: int|
        0 <= k < st.warnings.len() ==> warning_pos(#[trigger] st.warnings[k]) <= n
            && reported_fairly(input, st.warnings[k])
}

proof fn lemma_scan_keeps_text(input: Seq<char>, n: nat)
    requires
        n <= input.len() <= usize::MAX,
    ensures
        scan_keeps_text(input, n, scan(input, n)),
    decreases n,
{
    if n == 0 {
        assert(spelled(seq![]) + seq![] == Seq::<char>::empty());
    } else {
        let m = (n - 1) as nat;
        lemma_scan_keeps_text(input, m);
        let st = scan(input, m);
        let c = input[m as int];
        let next = step(st, c, n);
        assert(scan(input, n) == next);
        lemma_step_warnings(st, c, n);
        assert forall|p: nat| 1 <= p <= m implies warned(st.warnings, p) == warned(
            next.warnings,
            p,
        ) by {
            if warned(next.warnings, p) {
                let k = choose|k: int|
                    0 <= k < next.warnings.len() && warning_pos(#[trigger] next.warnings[k]) == p;
                if k < st.warnings.len() {
                    assert(next.warnings[k] == st.warnings[k]);
                }
            }
            if warned(st.warnings, p) {
                let k = choose|k: int|
                    0 <= k < st.warnings.len() && warning_pos(#[trigger] st.warnings[k]) == p;
                assert(next.warnings[k] == st.warnings[k]);
            }
        }
        lemma_kept_same_warnings(input, m, st.warnings, next.warnings);
        assert(!warned(st.warnings, n)) by {
            if warned(st.warnings, n) {
                let k = choose|k: int|
                    0 <= k < st.warnings.len() && warning_pos(#[trigger] st.warnings[k]) == n;
            }
        }
        assert(backslashes(input, n) == backslashes(input, m) + if c == '\\' {
            1nat
        } else {
            0nat
        });
        if c == '\n' {
        } else if c == '\\' {
            let t = TokenView { lex: LexemeView::FnSlash, text: seq![c], line: st.line, pos: n };
            lemma_spelled_push(st.tokens, t);
            assert(!warned(next.warnings, n));
        } else if is_space(c) {
            lemma_spelled_flushed(st.tokens, st.word, st.line, n);
        } else if punctuation(c) is Some {
            let t = TokenView {
                lex: punctuation(c)->0,
                text: seq![c],
                line: st.line,
                pos: n,
            };
            lemma_spelled_flushed(st.tokens, st.word, st.line, n);
            lemma_spelled_push(st.tokens + flushed(st.word, st.line, n), t);
            assert(!warned(next.warnings, n));
            assert(!(t.lex is FnSlash));
            assert(c != '\\');
        } else if c == '>' {
            if st.word == seq!['-'] {
                let t = TokenView {
                    lex: LexemeView::FnArrow,
                    text: seq!['-', '>'],
                    line: st.line,
                    pos: n,
                };
                lemma_spelled_push(st.tokens, t);
                assert(spelled(st.tokens) + seq!['-', '>'] == spelled(st.tokens) + st.word + seq![c]);
                assert(!warned(next.warnings, n));
            } else {
                lemma_spelled_flushed(st.tokens, st.word, st.line, n);
                let k = st.warnings.len() as int;
                assert(warning_pos(next.warnings[k]) == n);
                assert(warned(next.warnings, n));
            }
        } else if is_word_char(c) {
            assert(!warned(next.warnings, n));
            assert(spelled(st.tokens) + st.word.push(c) == spelled(st.tokens) + st.word + seq![c]);
        } else {
            assert(reported_at(st, c));
            let k = st.warnings.len() as int;
            assert(warning_pos(next.warnings[k]) == n);
            assert(warned(next.warnings, n));
        }
        assert(kept(input, n, next.warnings) == kept(input, m, next.warnings) + if keeps(
            input,
            n,
            next.warnings,
        ) {
            seq![c]
        } else {
            seq![]
        });
        assert(spelled(next.tokens) + next.word == kept(input, n, next.warnings));
        assert(slash_tokens(next.tokens) == backslashes(input, n));
        assert forall|k: int| 0 <= k < next.warnings.len() implies warning_pos(
            #[trigger] next.warnings[k],
        ) <= n && reported_fairly(input, next.warnings[k]) by {
            if k < st.warnings.len() {
                assert(next.warnings[k] == st.warnings[k]);
            } else {
                assert(reported_at(st, c));
            }
        }
    }
}

/// Lexing loses no character silently. The texts of the tokens, `\` apart,
/// spell in order exactly the input's characters that are neither
/// whitespace, nor `\`, nor reported in a warning. Each `\` becomes a token
/// of its own (it does not end the word around it, so it stands apart from
/// that order). Every warning stands at a `>` or at a character the lexer has
/// no use for.
pub proof fn lemma_tokens_keep_text(input: Seq<char>)
    requires
        input.len() <= usize::MAX,
    ensures
        spelled(lex_tokens(input)) == kept(input, input.len(), lex_warnings(input)),
        slash_tokens(lex_tokens(input)) == backslashes(input, input.len()),
        forall|k: int|
            0 <= k < lex_warnings(input).len() ==> reported_fairly(
                input,
                #[trigger] lex_warnings(input)[k],
            ),
{
    let st = scan(input, input.len());
    lemma_scan_keeps_text(input, input.len());
    lemma_spelled_flushed(st.tokens, st.word, st.line, input.len());
}

proof fn lemma_primitive_is_not_io(w: Seq<char>)
    requires
        primitive_type(w) is Some,
    ensures
        w != "IO"@,
{
    reveal_strlit("IO");
    reveal_strlit("Int");
    reveal_strlit("Txt");
    reveal_strlit("Real");
    reveal_strlit("Bool");
    assert("IO"@.len() == 2);
    assert(w == "Int"@ || w == "Txt"@ || w == "Real"@ || w == "Bool"@);
    assert(w.len() != 2);
}

/// A type name followed by an arrow: the arrow's right side is the whole
/// rest of the annotation.
pub proof fn lemma_arrow_takes_the_rest(toks: Seq<TokenView>, i: int, w: Seq<char>)
    requires
        0 <= i,
        i + 1 < toks.len(),
        toks[i].lex == LexemeView::Name(w),
        primitive_type(w) is Some,
        toks[i + 1].lex is FnArrow,
    ensures
        type_at(toks, i) == match type_at(toks, i + 2) {
            Ok((c, e)) => Ok((Type::Fn(Box::new(primitive_type(w)->0), Box::new(c)), e)),
            Err(x) => Err::<(Type, int), ParseError>(x),
        },
{
    lemma_primitive_is_not_io(w);
    assert(type_at(toks, i) == type_after(toks, primitive_type(w)->0, i + 1));
}

/// Function types group to the right: `A -> B -> C`, for type names `A`, `B`
/// and `C` and a `;` or `=` after them, is `A -> (B -> C)`.
pub proof fn lemma_arrows_group_right(
    toks: Seq<TokenView>,
    i: int,
    a: Seq<char>,
    b: Seq<char>,
    c: Seq<char>,
)
    requires
        0 <= i,
        i + 5 < toks.len(),
        toks[i].lex == LexemeView::Name(a),
        toks[i + 1].lex is FnArrow,
        toks[i + 2].lex == LexemeView::Name(b),
        toks[i + 3].lex is FnArrow,
        toks[i + 4].lex == LexemeView::Name(c),
        toks[i + 5].lex is SemiColon || toks[i + 5].lex is Equal,
        primitive_type(a) is Some,
        primitive_type(b) is Some,
        primitive_type(c) is Some,
    ensures
        type_at(toks, i) == Ok::<(Type, int), ParseError>(
            (
                Type::Fn(
                    Box::new(primitive_type(a)->0),
                    Box::new(
                        Type::Fn(Box::new(primitive_type(b)->0), Box::new(primitive_type(c)->0)),
                    ),
                ),
                i + 5,
            ),
        ),
{
    lemma_primitive_is_not_io(c);
    assert(type_at(toks, i + 4) == type_after(toks, primitive_type(c)->0, i + 5));
    assert(type_at(toks, i + 4) == Ok::<(Type, int), ParseError>((primitive_type(c)->0, i + 5)));
    lemma_arrow_takes_the_rest(toks, i + 2, b);
    lemma_arrow_takes_the_rest(toks, i, a);
}

/// Names resolve to their first definition: when the `k`-th definition is
/// the first named `w`, and is of a primitive type with a value of that type,
/// `w` resolves to that value, whatever later definitions of `w` say.
pub proof fn lemma_first_match(toks: Seq<TokenView>, i: int, defs: Seq<DefView>, w: Seq<char>, k: int)
    requires
        0 <= i < toks.len(),
        toks[i].lex == LexemeView::Name(w),
        is_first_def(defs, w, k),
        fits_type(defs[k].body, defs[k].def_type),
    ensures
        expr_at(toks, i, defs) == Ok::<(crate::syntax::ExprView, int), ParseError>((defs[k].body, i + 1)),
{
    assert forall|k2: int| is_first_def(defs, w, k2) implies k2 == k by {
        if k2 < k {
            assert(defs[k2].name != w);
        } else if k2 > k {
            assert(defs[k].name != w);
        }
    }
    assert(lookup(defs, w) == Some(k));
}

/// Adding a definition never changes what an already defined name resolves to.
pub proof fn lemma_later_definitions_do_not_shadow(defs: Seq<DefView>, d: DefView, w: Seq<char>)
    requires
        lookup(defs, w) is Some,
    ensures
        lookup(defs.push(d), w) == lookup(defs, w),
{
    let k = lookup(defs, w)->0;
    let more = defs.push(d);
    assert(is_first_def(defs, w, k));
    assert(is_first_def(more, w, k)) by {
        assert forall|j: int| 0 <= j < k implies #[trigger] more[j].name != w by {
            assert(more[j] == defs[j]);
        }
        assert(more[k] == defs[k]);
    }
    assert forall|k2: int| is_first_def(more, w, k2) implies k2 == k by {
        if k2 < k {
            assert(more[k2] == defs[k2]);
        } else if k2 > k {
            assert(more[k] == defs[k]);
        }
    }
}

/// `(` `)` is the unit in both places: as a literal, and as a type (which an
/// arrow, `;` or `=` follows as after any other type). Parentheses holding
/// anything else are fatal in both.
pub proof fn lemma_unit_parens(toks: Seq<TokenView>, i: int)
    requires
        0 <= i,
        i + 1 < toks.len(),
        toks[i].lex is ParenL,
    ensures
        toks[i + 1].lex is ParenR ==> literal_at(toks, i) == Ok::<(LiteralView, int), ParseError>(
            (LiteralView::Unit, i + 2),
        ) && type_at(toks, i) == type_after(toks, Type::Unit, i + 2),
        toks[i + 1].lex is ParenR && i + 2 < toks.len() && (toks[i + 2].lex is SemiColon
            || toks[i + 2].lex is Equal) ==> type_at(toks, i) == Ok::<(Type, int), ParseError>(
            (Type::Unit, i + 2),
        ),
        !(toks[i + 1].lex is ParenR) ==> literal_at(toks, i) == fail::<(LiteralView, int)>(
            ErrorKind::UnsupportedLiteral,
            i + 1,
        ) && type_at(toks, i) == fail::<(Type, int)>(ErrorKind::NestedType, i + 1),
{
}

} // verus!
