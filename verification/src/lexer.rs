//! The lexer: turns source text into tokens.
use vstd::prelude::*;

use crate::text::{
    ascii_alphabetic, ascii_whitespace, char_string, decimal_digit, is_alphabetic, is_ascii_char,
    is_digit, is_whitespace, push_char, text_equals,
};
use crate::token::{KindView, Token, TokenKind, TokenView};
use vstd::string::StringSliceAdditionalSpecFns;

verus! {

/// Where the lexer stands: the index of the next character, and the line and column
/// of the last character read.
pub struct LexState {
    pub cur: nat,
    pub line: nat,
    pub chr: nat,
}

/// Why lexing stopped.
#[derive(Debug, PartialEq, Eq, Clone, Copy)]
pub enum LexError {
    /// A character literal whose second character is not the closing quote.
    BadCharLiteral { line: usize, column: usize, found: char },
    /// A string literal that the end of the source cuts off. (Lexing such a source
    /// would otherwise never finish.)
    UnterminatedString { line: usize, column: usize },
}

/// Reading the next character: a space once the source is exhausted.
pub open spec fn chop_spec(src: Seq<char>, st: LexState) -> (char, LexState) {
    if st.cur >= src.len() {
        (' ', st)
    } else {
        (src[st.cur as int], LexState { cur: st.cur + 1, line: st.line, chr: st.chr + 1 })
    }
}

/// The next character without reading it: a space once the source is exhausted.
pub open spec fn peek_spec(src: Seq<char>, st: LexState) -> char {
    if st.cur >= src.len() {
        ' '
    } else {
        src[st.cur as int]
    }
}

/// A token of the given kind at the given line and column.
pub open spec fn tok_at(file: Seq<char>, kind: KindView, line: nat, col: nat) -> TokenView {
    TokenView { origin_file: file, kind: kind, pos: (line as usize, col as usize) }
}

/// A token of the given kind at the lexer's current position.
pub open spec fn tok_here(file: Seq<char>, kind: KindView, st: LexState) -> TokenView {
    tok_at(file, kind, st.line, st.chr)
}

/// The characters that continue an identifier.
pub open spec fn ident_char(c: char) -> bool {
    ascii_alphabetic(c) || decimal_digit(c) || c == '_'
}

/// The characters that continue a number.
pub open spec fn number_char(c: char) -> bool {
    decimal_digit(c) || c == '.'
}

/// The kind of an identifier: a keyword, a primitive type name, or a symbol.
pub open spec fn identify(v: Seq<char>) -> KindView {
    if v == "fn"@ {
        KindView::Func
    } else if v == "let"@ {
        KindView::Let
    } else if v == "false"@ {
        KindView::False
    } else if v == "true"@ {
        KindView::True
    } else if v == "if"@ {
        KindView::If
    } else if v == "else"@ {
        KindView::Else
    } else if v == "while"@ {
        KindView::While
    } else if v == "return"@ {
        KindView::Return
    } else if v == "break"@ {
        KindView::Break
    } else if v == "continue"@ {
        KindView::Continue
    } else if v == "print"@ {
        KindView::Print
    } else if v == "println"@ {
        KindView::Println
    } else if v == "int"@ || v == "float"@ || v == "bool"@ || v == "string"@ || v == "void"@
        || v == "char"@ {
        KindView::PrimitiveType(v)
    } else {
        KindView::Symbol(v)
    }
}

/// Reading on while the current character `c` continues an identifier: the text read
/// (after `acc`), the first character that does not continue it, and the state after it.
pub open spec fn scan_ident(src: Seq<char>, st: LexState, acc: Seq<char>, c: char) -> (
    Seq<char>,
    char,
    LexState,
)
    decreases src.len() - st.cur,
{
    if !ident_char(c) {
        (acc, c, st)
    } else if st.cur >= src.len() {
        (acc.push(c), ' ', st)
    } else {
        scan_ident(src, chop_spec(src, st).1, acc.push(c), src[st.cur as int])
    }
}

/// Reading on while the current character `c` continues a number.
pub open spec fn scan_number(src: Seq<char>, st: LexState, acc: Seq<char>, c: char) -> (
    Seq<char>,
    char,
    LexState,
)
    decreases src.len() - st.cur,
{
    if !number_char(c) {
        (acc, c, st)
    } else if st.cur >= src.len() {
        (acc.push(c), ' ', st)
    } else {
        scan_number(src, chop_spec(src, st).1, acc.push(c), src[st.cur as int])
    }
}

/// Reading a string literal up to and including its closing quote, `c` being the current
/// character; `None` where the source ends first.
pub open spec fn scan_string(src: Seq<char>, st: LexState, acc: Seq<char>, c: char) -> Option<
    (Seq<char>, LexState),
>
    decreases src.len() - st.cur,
{
    if c == '"' {
        Some((acc.push('"'), st))
    } else if st.cur >= src.len() {
        None
    } else {
        scan_string(src, chop_spec(src, st).1, acc.push(c), src[st.cur as int])
    }
}

/// An operator that may be followed by a second character: the long kind and a read of
/// the second character where it follows, else the short kind (none for a lone `&` or `|`).
pub open spec fn two_char_op(
    src: Seq<char>,
    file: Seq<char>,
    st: LexState,
    second: char,
    long: KindView,
    short: Option<KindView>,
) -> (Seq<TokenView>, LexState) {
    if peek_spec(src, st) == second {
        (seq![tok_here(file, long, st)], chop_spec(src, st).1)
    } else {
        match short {
            Some(k) => (seq![tok_here(file, k, st)], st),
            None => (seq![], st),
        }
    }
}

/// A character that is neither part of a literal nor a blank other than a line break.
#[verifier::opaque]
pub open spec fn punct(src: Seq<char>, file: Seq<char>, c: char, st: LexState) -> (
    Seq<TokenView>,
    LexState,
) {
    if c == '\n' {
        (seq![], LexState { cur: st.cur, line: st.line + 1, chr: 0 })
    } else if c == '(' {
        (seq![tok_here(file, KindView::OpenParen, st)], st)
    } else if c == ')' {
        (seq![tok_here(file, KindView::CloseParen, st)], st)
    } else if c == '{' {
        (seq![tok_here(file, KindView::OpenCurly, st)], st)
    } else if c == '}' {
        (seq![tok_here(file, KindView::CloseCurly, st)], st)
    } else if c == ',' {
        (seq![tok_here(file, KindView::Comma, st)], st)
    } else if c == ';' {
        (seq![tok_here(file, KindView::Semicolon, st)], st)
    } else if c == ':' {
        (seq![tok_here(file, KindView::Colon, st)], st)
    } else if c == '=' {
        two_char_op(src, file, st, '=', KindView::Equals, Some(KindView::Equal))
    } else if c == '+' {
        two_char_op(src, file, st, '=', KindView::PlusEq, Some(KindView::Plus))
    } else if c == '-' {
        two_char_op(src, file, st, '=', KindView::MinusEq, Some(KindView::Minus))
    } else if c == '*' {
        two_char_op(src, file, st, '=', KindView::MulEq, Some(KindView::Mul))
    } else if c == '/' {
        two_char_op(src, file, st, '=', KindView::DivEq, Some(KindView::Div))
    } else if c == '%' {
        two_char_op(src, file, st, '=', KindView::ModuloEq, Some(KindView::Modulo))
    } else if c == '<' {
        two_char_op(src, file, st, '=', KindView::LessEq, Some(KindView::Less))
    } else if c == '>' {
        two_char_op(src, file, st, '=', KindView::GreaterEq, Some(KindView::Greater))
    } else if c == '&' {
        two_char_op(src, file, st, '&', KindView::And, None)
    } else if c == '|' {
        two_char_op(src, file, st, '|', KindView::Or, None)
    } else if c == '!' {
        two_char_op(src, file, st, '=', KindView::NotEq, Some(KindView::Not))
    } else {
        (seq![tok_here(file, KindView::Unknown(seq![c]), st)], st)
    }
}

/// An identifier starting with `c`, read from `st`: its tokens, the character after it
/// and the state after that character; nothing where `c` is not a letter.
pub open spec fn ident_part(src: Seq<char>, file: Seq<char>, c: char, st: LexState) -> (
    Seq<TokenView>,
    char,
    LexState,
) {
    if ascii_alphabetic(c) {
        let (c1, st1) = chop_spec(src, st);
        let (v, c2, st2) = scan_ident(src, st1, seq![c], c1);
        (seq![tok_at(file, identify(v), st.line, st.chr)], c2, st2)
    } else {
        (seq![], c, st)
    }
}

/// A number starting with `c`, read from `st`; nothing where `c` is not a digit.
pub open spec fn number_part(src: Seq<char>, file: Seq<char>, c: char, st: LexState) -> (
    Seq<TokenView>,
    char,
    LexState,
) {
    if decimal_digit(c) {
        let (c1, st1) = chop_spec(src, st);
        let (v, c2, st2) = scan_number(src, st1, seq![c], c1);
        (seq![tok_at(file, KindView::Number(v), st.line, st.chr)], c2, st2)
    } else {
        (seq![], c, st)
    }
}

/// The start of a round of the lexer from `st`: the next character is read, and an
/// identifier, then a number, that start with it are read on. Gives their tokens, the
/// character after them and the state after it.
pub open spec fn lead(src: Seq<char>, file: Seq<char>, st: LexState) -> (
    Seq<TokenView>,
    char,
    LexState,
) {
    let (c0, st0) = chop_spec(src, st);
    let (ts1, c1, st1) = ident_part(src, file, c0, st0);
    let (ts2, c2, st2) = number_part(src, file, c1, st1);
    (ts1 + ts2, c2, st2)
}

/// The rest of a round, the character `c` having been read with the tokens `ts` before
/// it: a string or character literal, a blank, or an operator or punctuation.
pub open spec fn finish(
    src: Seq<char>,
    file: Seq<char>,
    ts: Seq<TokenView>,
    c: char,
    st: LexState,
) -> Result<(Seq<TokenView>, LexState), LexError> {
    if c == '"' {
        let (c3, st3) = chop_spec(src, st);
        match scan_string(src, st3, seq!['"'], c3) {
            Some((v, st4)) => Ok((ts.push(tok_at(file, KindView::Str(v), st.line, st.chr)), st4)),
            None => Err(
                LexError::UnterminatedString { line: st.line as usize, column: st.chr as usize },
            ),
        }
    } else if c == '\'' {
        let (c3, st3) = chop_spec(src, st);
        let (c4, st4) = chop_spec(src, st3);
        if c4 != '\'' {
            Err(
                LexError::BadCharLiteral {
                    line: st4.line as usize,
                    column: st4.chr as usize,
                    found: c4,
                },
            )
        } else {
            Ok(
                (
                    ts.push(tok_at(file, KindView::Char(seq!['\'', c3, '\'']), st.line, st.chr)),
                    st4,
                ),
            )
        }
    } else if ascii_whitespace(c) && c != '\n' {
        Ok((ts, st))
    } else {
        let (ts3, st3) = punct(src, file, c, st);
        Ok((ts + ts3, st3))
    }
}

/// One round of the lexer from `st`, where characters remain: the tokens it adds and the
/// state it leaves, or the error that stops it.
pub open spec fn lex_round(src: Seq<char>, file: Seq<char>, st: LexState) -> Result<
    (Seq<TokenView>, LexState),
    LexError,
> {
    let (ts, c, st2) = lead(src, file, st);
    finish(src, file, ts, c, st2)
}

/// The tokens of the source from `st` on, ending with an end-of-file token at the
/// position the lexer has reached; or the error that stops it.
pub open spec fn lex_from(src: Seq<char>, file: Seq<char>, st: LexState) -> Result<
    Seq<TokenView>,
    LexError,
>
    decreases src.len() - st.cur,
{
    if st.cur >= src.len() {
        Ok(seq![tok_here(file, KindView::EOF, st)])
    } else {
        match lex_round(src, file, st) {
            Err(e) => Err(e),
            Ok((ts, st2)) => if st.cur < st2.cur <= src.len() {
                match lex_from(src, file, st2) {
                    Ok(rest) => Ok(ts + rest),
                    Err(e) => Err(e),
                }
            } else {
                Ok(ts)
            },
        }
    }
}

/// Whether no token of `ts` marks the end of the file.
pub open spec fn no_eof(ts: Seq<TokenView>) -> bool {
    forall|i: int| 0 <= i < ts.len() ==> (#[trigger] ts[i]).kind != KindView::EOF
}

/// Reading an identifier never moves back.
proof fn lemma_scan_ident_forward(src: Seq<char>, st: LexState, acc: Seq<char>, c: char)
    requires
        st.cur <= src.len(),
    ensures
        st.cur <= scan_ident(src, st, acc, c).2.cur <= src.len(),
    decreases src.len() - st.cur,
{
    if ident_char(c) && st.cur < src.len() {
        lemma_scan_ident_forward(src, chop_spec(src, st).1, acc.push(c), src[st.cur as int]);
    }
}

/// Reading a number never moves back.
proof fn lemma_scan_number_forward(src: Seq<char>, st: LexState, acc: Seq<char>, c: char)
    requires
        st.cur <= src.len(),
    ensures
        st.cur <= scan_number(src, st, acc, c).2.cur <= src.len(),
    decreases src.len() - st.cur,
{
    if number_char(c) && st.cur < src.len() {
        lemma_scan_number_forward(src, chop_spec(src, st).1, acc.push(c), src[st.cur as int]);
    }
}

/// Reading a string literal never moves back.
proof fn lemma_scan_string_forward(src: Seq<char>, st: LexState, acc: Seq<char>, c: char)
    requires
        st.cur <= src.len(),
    ensures
        match scan_string(src, st, acc, c) {
            Some((_, st2)) => st.cur <= st2.cur <= src.len(),
            None => true,
        },
    decreases src.len() - st.cur,
{
    if c != '"' && st.cur < src.len() {
        lemma_scan_string_forward(src, chop_spec(src, st).1, acc.push(c), src[st.cur as int]);
    }
}

/// A round of the lexer, where characters remain, moves forward and yields no
/// end-of-file token.
proof fn lemma_round_forward(src: Seq<char>, file: Seq<char>, st: LexState)
    requires
        st.cur < src.len(),
    ensures
        match lex_round(src, file, st) {
            Ok((ts, st2)) => st.cur < st2.cur <= src.len() && no_eof(ts),
            Err(_) => true,
        },
{
    let (c0, st0) = chop_spec(src, st);
    let (ts1, c1, st1) = ident_part(src, file, c0, st0);
    if ascii_alphabetic(c0) {
        let (c1a, st1a) = chop_spec(src, st0);
        lemma_scan_ident_forward(src, st1a, seq![c0], c1a);
    }
    let (ts2, c2, st2) = number_part(src, file, c1, st1);
    if decimal_digit(c1) {
        let (c2a, st2a) = chop_spec(src, st1);
        lemma_scan_number_forward(src, st2a, seq![c1], c2a);
    }
    assert(st.cur < st2.cur <= src.len());
    assert(no_eof(ts1 + ts2)) by {
        assert forall|i: int| 0 <= i < (ts1 + ts2).len() implies (#[trigger] (ts1 + ts2)[i]).kind
            != KindView::EOF by {
            if i < ts1.len() {
                assert((ts1 + ts2)[i] == ts1[i]);
            } else {
                assert((ts1 + ts2)[i] == ts2[i - ts1.len()]);
            }
        }
    }
    if c2 == '"' {
        let (c3, st3) = chop_spec(src, st2);
        lemma_scan_string_forward(src, st3, seq!['"'], c3);
    }
    let ts = ts1 + ts2;
    match finish(src, file, ts, c2, st2) {
        Ok((ts4, st4)) => {
            if c2 != '"' && c2 != '\'' && !(ascii_whitespace(c2) && c2 != '\n') {
                reveal(punct);
                let (ts3, st3) = punct(src, file, c2, st2);
                assert(no_eof(ts3));
                assert(ts4 == ts + ts3);
                assert forall|i: int| 0 <= i < ts4.len() implies (#[trigger] ts4[i]).kind
                    != KindView::EOF by {
                    if i < ts.len() {
                        assert(ts4[i] == ts[i]);
                    } else {
                        assert(ts4[i] == ts3[i - ts.len()]);
                    }
                }
            } else {
                assert forall|i: int| 0 <= i < ts4.len() implies (#[trigger] ts4[i]).kind
                    != KindView::EOF by {
                    if i < ts.len() {
                        assert(ts4[i] == ts[i]);
                    }
                }
            }
        },
        Err(_) => {},
    }
}

/// The lexer's tokens end with one end-of-file token, and with one alone: a successful
/// run yields at least one token, its last marks the end of the file, and no other does.
pub proof fn lemma_lex_ends_with_eof(src: Seq<char>, file: Seq<char>, st: LexState)
    ensures
        match lex_from(src, file, st) {
            Ok(ts) => ts.len() > 0 && ts.last().kind == KindView::EOF && no_eof(ts.drop_last()),
            Err(_) => true,
        },
    decreases src.len() - st.cur,
{
    if st.cur >= src.len() {
        assert(seq![tok_here(file, KindView::EOF, st)].drop_last() =~= seq![]);
    } else {
        lemma_round_forward(src, file, st);
        match lex_round(src, file, st) {
            Ok((ts, st2)) => {
                lemma_lex_ends_with_eof(src, file, st2);
                match lex_from(src, file, st2) {
                    Ok(rest) => {
                        let all = ts + rest;
                        assert(all.last() == rest.last());
                        assert forall|i: int| 0 <= i < all.drop_last().len() implies (
                        #[trigger] all.drop_last()[i]).kind != KindView::EOF by {
                            if i < ts.len() {
                                assert(all.drop_last()[i] == ts[i]);
                            } else {
                                assert(all.drop_last()[i] == rest.drop_last()[i - ts.len()]);
                            }
                        }
                    },
                    Err(_) => {},
                }
            },
            Err(_) => {},
        }
    }
}

/// Blanks separate tokens and are no tokens themselves: where the next character is a
/// space, a tab, a vertical tab, a form feed or a carriage return, the tokens from there on
/// are those from after it, with its column counted. A line feed likewise yields no token,
/// and moves the position to the start of the next line.
pub proof fn lemma_blanks_yield_no_tokens(src: Seq<char>, file: Seq<char>, st: LexState)
    requires
        st.cur < src.len(),
    ensures
        ({
            let c = src[st.cur as int];
            (c == ' ' || c == '\t' || c == '\u{b}' || c == '\u{c}' || c == '\r') ==> lex_from(
                src,
                file,
                st,
            ) == lex_from(src, file, LexState { cur: st.cur + 1, line: st.line, chr: st.chr + 1 })
        }),
        src[st.cur as int] == '\n' ==> lex_from(src, file, st) == lex_from(
            src,
            file,
            LexState { cur: st.cur + 1, line: st.line + 1, chr: 0 },
        ),
{
    let c = src[st.cur as int];
    let st0 = LexState { cur: st.cur + 1, line: st.line, chr: st.chr + 1 };
    assert(chop_spec(src, st) == (c, st0));
    if c == ' ' || c == '\t' || c == '\u{b}' || c == '\u{c}' || c == '\r' || c == '\n' {
        let e: Seq<TokenView> = seq![];
        assert(!ascii_alphabetic(c) && !decimal_digit(c));
        assert(lead(src, file, st) == (e + e, c, st0));
        let st1 = if c == '\n' {
            LexState { cur: st.cur + 1, line: st.line + 1, chr: 0 }
        } else {
            st0
        };
        if c == '\n' {
            reveal(punct);
            assert(punct(src, file, c, st0) == (e, st1));
            assert(finish(src, file, e + e, c, st0) == Ok::<(Seq<TokenView>, LexState), LexError>(
                (e + e + e, st1),
            ));
        } else {
            assert(finish(src, file, e + e, c, st0) == Ok::<(Seq<TokenView>, LexState), LexError>(
                (e + e, st1),
            ));
        }
        assert(e + e =~= e);
        assert(e + e + e =~= e);
        assert(lex_round(src, file, st) == Ok::<(Seq<TokenView>, LexState), LexError>((e, st1)));
        match lex_from(src, file, st1) {
            Ok(rest) => {
                assert(e + rest =~= rest);
            },
            Err(_) => {},
        }
    }
}

/// The state after reading the next character.
pub open spec fn after_char(st: LexState) -> LexState {
    LexState { cur: st.cur + 1, line: st.line, chr: st.chr + 1 }
}

/// A round that yields one token of kind `k`, placed at the column of the character that
/// starts it, and reads `n` characters.
pub open spec fn one_token(file: Seq<char>, k: KindView, st: LexState, n: nat) -> Result<
    (Seq<TokenView>, LexState),
    LexError,
> {
    Ok(
        (
            seq![tok_at(file, k, st.line, st.chr + 1)],
            LexState { cur: st.cur + n, line: st.line, chr: st.chr + n },
        ),
    )
}

/// Each punctuation character yields its token, and each operator character its token:
/// the two-character operator where the next character completes one (`==`, `+=`, `-=`,
/// `*=`, `/=`, `%=`, `<=`, `>=`, `!=`, `&&`, `||`), else the one-character operator; a
/// lone `&` or `|` yields nothing.
pub proof fn lemma_operator_tokens(src: Seq<char>, file: Seq<char>, st: LexState)
    requires
        st.cur < src.len(),
    ensures
        src[st.cur as int] == '(' ==> lex_round(src, file, st) == one_token(file, KindView::OpenParen, st, 1),
        src[st.cur as int] == ')' ==> lex_round(src, file, st) == one_token(file, KindView::CloseParen, st, 1),
        src[st.cur as int] == '{' ==> lex_round(src, file, st) == one_token(file, KindView::OpenCurly, st, 1),
        src[st.cur as int] == '}' ==> lex_round(src, file, st) == one_token(file, KindView::CloseCurly, st, 1),
        src[st.cur as int] == ',' ==> lex_round(src, file, st) == one_token(file, KindView::Comma, st, 1),
        src[st.cur as int] == ';' ==> lex_round(src, file, st) == one_token(file, KindView::Semicolon, st, 1),
        src[st.cur as int] == ':' ==> lex_round(src, file, st) == one_token(file, KindView::Colon, st, 1),
        src[st.cur as int] == '=' && peek_spec(src, after_char(st)) == '=' ==> lex_round(src, file, st) == one_token(file, KindView::Equals, st, 2),
        src[st.cur as int] == '=' && peek_spec(src, after_char(st)) != '=' ==> lex_round(src, file, st) == one_token(file, KindView::Equal, st, 1),
        src[st.cur as int] == '+' && peek_spec(src, after_char(st)) == '=' ==> lex_round(src, file, st) == one_token(file, KindView::PlusEq, st, 2),
        src[st.cur as int] == '+' && peek_spec(src, after_char(st)) != '=' ==> lex_round(src, file, st) == one_token(file, KindView::Plus, st, 1),
        src[st.cur as int] == '-' && peek_spec(src, after_char(st)) == '=' ==> lex_round(src, file, st) == one_token(file, KindView::MinusEq, st, 2),
        src[st.cur as int] == '-' && peek_spec(src, after_char(st)) != '=' ==> lex_round(src, file, st) == one_token(file, KindView::Minus, st, 1),
        src[st.cur as int] == '*' && peek_spec(src, after_char(st)) == '=' ==> lex_round(src, file, st) == one_token(file, KindView::MulEq, st, 2),
        src[st.cur as int] == '*' && peek_spec(src, after_char(st)) != '=' ==> lex_round(src, file, st) == one_token(file, KindView::Mul, st, 1),
        src[st.cur as int] == '/' && peek_spec(src, after_char(st)) == '=' ==> lex_round(src, file, st) == one_token(file, KindView::DivEq, st, 2),
        src[st.cur as int] == '/' && peek_spec(src, after_char(st)) != '=' ==> lex_round(src, file, st) == one_token(file, KindView::Div, st, 1),
        src[st.cur as int] == '%' && peek_spec(src, after_char(st)) == '=' ==> lex_round(src, file, st) == one_token(file, KindView::ModuloEq, st, 2),
        src[st.cur as int] == '%' && peek_spec(src, after_char(st)) != '=' ==> lex_round(src, file, st) == one_token(file, KindView::Modulo, st, 1),
        src[st.cur as int] == '<' && peek_spec(src, after_char(st)) == '=' ==> lex_round(src, file, st) == one_token(file, KindView::LessEq, st, 2),
        src[st.cur as int] == '<' && peek_spec(src, after_char(st)) != '=' ==> lex_round(src, file, st) == one_token(file, KindView::Less, st, 1),
        src[st.cur as int] == '>' && peek_spec(src, after_char(st)) == '=' ==> lex_round(src, file, st) == one_token(file, KindView::GreaterEq, st, 2),
        src[st.cur as int] == '>' && peek_spec(src, after_char(st)) != '=' ==> lex_round(src, file, st) == one_token(file, KindView::Greater, st, 1),
        src[st.cur as int] == '!' && peek_spec(src, after_char(st)) == '=' ==> lex_round(src, file, st) == one_token(file, KindView::NotEq, st, 2),
        src[st.cur as int] == '!' && peek_spec(src, after_char(st)) != '=' ==> lex_round(src, file, st) == one_token(file, KindView::Not, st, 1),
        src[st.cur as int] == '&' && peek_spec(src, after_char(st)) == '&' ==> lex_round(src, file, st) == one_token(file, KindView::And, st, 2),
        src[st.cur as int] == '&' && peek_spec(src, after_char(st)) != '&' ==> lex_round(src, file, st) == Ok::<(Seq<TokenView>, LexState), LexError>((Seq::<TokenView>::empty(), after_char(st))),
        src[st.cur as int] == '|' && peek_spec(src, after_char(st)) == '|' ==> lex_round(src, file, st) == one_token(file, KindView::Or, st, 2),
        src[st.cur as int] == '|' && peek_spec(src, after_char(st)) != '|' ==> lex_round(src, file, st) == Ok::<(Seq<TokenView>, LexState), LexError>((Seq::<TokenView>::empty(), after_char(st))),
{
    let c = src[st.cur as int];
    let st0 = after_char(st);
    let e: Seq<TokenView> = seq![];
    if c == '('||c == ')'||c == '{'||c == '}'||c == ','||c == ';'||c == ':'||c == '='||c == '+'||c == '-'||c == '*'||c == '/'||c == '%'||c == '<'||c == '>'||c == '!'||c == '&'||c == '|' {
        assert(chop_spec(src, st) == (c, st0));
        assert(!ascii_alphabetic(c) && !decimal_digit(c) && !ascii_whitespace(c));
        assert(lead(src, file, st) == (e + e, c, st0));
        reveal(punct);
        let (ts3, st3) = punct(src, file, c, st0);
        assert(e + e + ts3 =~= ts3);
        assert(finish(src, file, e + e, c, st0) == Ok::<(Seq<TokenView>, LexState), LexError>(
            (e + e + ts3, st3),
        ));
        assert(lex_round(src, file, st) == Ok::<(Seq<TokenView>, LexState), LexError>((ts3, st3)));
        if st0.cur < src.len() {
            assert(chop_spec(src, st0).1 == LexState { cur: st.cur + 2, line: st.line, chr: st.chr + 2 });
        }
    }
}

/// Each keyword reads as its own kind, and each primitive type name as a primitive type.
pub proof fn lemma_keywords()
    ensures
        identify("fn"@) == KindView::Func,
        identify("let"@) == KindView::Let,
        identify("false"@) == KindView::False,
        identify("true"@) == KindView::True,
        identify("if"@) == KindView::If,
        identify("else"@) == KindView::Else,
        identify("while"@) == KindView::While,
        identify("return"@) == KindView::Return,
        identify("break"@) == KindView::Break,
        identify("continue"@) == KindView::Continue,
        identify("print"@) == KindView::Print,
        identify("println"@) == KindView::Println,
        identify("int"@) == KindView::PrimitiveType("int"@),
        identify("float"@) == KindView::PrimitiveType("float"@),
        identify("bool"@) == KindView::PrimitiveType("bool"@),
        identify("string"@) == KindView::PrimitiveType("string"@),
        identify("void"@) == KindView::PrimitiveType("void"@),
        identify("char"@) == KindView::PrimitiveType("char"@),
{
    reveal_strlit("fn");
    reveal_strlit("let");
    reveal_strlit("false");
    reveal_strlit("true");
    reveal_strlit("if");
    reveal_strlit("else");
    reveal_strlit("while");
    reveal_strlit("return");
    reveal_strlit("break");
    reveal_strlit("continue");

    reveal_strlit("print");
    reveal_strlit("println");
    reveal_strlit("int");
    reveal_strlit("float");
    reveal_strlit("bool");
    reveal_strlit("string");
    reveal_strlit("void");
    reveal_strlit("char");
    assert("fn"@.len() == 2);
    assert("let"@.len() == 3);
    assert("false"@.len() == 5);
    assert("true"@.len() == 4);
    assert("if"@.len() == 2);
    assert("else"@.len() == 4);
    assert("while"@.len() == 5);
    assert("return"@.len() == 6);
    assert("break"@.len() == 5);
    assert("continue"@.len() == 8);
    assert("print"@.len() == 5);
    assert("println"@.len() == 7);
    assert("int"@.len() == 3);
    assert("float"@.len() == 5);
    assert("bool"@.len() == 4);
    assert("string"@.len() == 6);
    assert("void"@.len() == 4);
    assert("char"@.len() == 4);
    assert("let"@ != "fn"@);
    assert("false"@ != "fn"@);
    assert("false"@ != "let"@);
    assert("true"@ != "fn"@);
    assert("true"@ != "let"@);
    assert("true"@ != "false"@);
    assert("if"@[0] != "fn"@[0]);
    assert("if"@ != "fn"@);
    assert("if"@ != "let"@);
    assert("if"@ != "false"@);
    assert("if"@ != "true"@);
    assert("else"@ != "fn"@);
    assert("else"@ != "let"@);
    assert("else"@ != "false"@);
    assert("else"@[0] != "true"@[0]);
    assert("else"@ != "true"@);
    assert("else"@ != "if"@);
    assert("while"@ != "fn"@);
    assert("while"@ != "let"@);
    assert("while"@[0] != "false"@[0]);
    assert("while"@ != "false"@);
    assert("while"@ != "true"@);
    assert("while"@ != "if"@);
    assert("while"@ != "else"@);
    assert("return"@ != "fn"@);
    assert("return"@ != "let"@);
    assert("return"@ != "false"@);
    assert("return"@ != "true"@);
    assert("return"@ != "if"@);
    assert("return"@ != "else"@);
    assert("return"@ != "while"@);
    assert("break"@ != "fn"@);
    assert("break"@ != "let"@);
    assert("break"@[0] != "false"@[0]);
    assert("break"@ != "false"@);
    assert("break"@ != "true"@);
    assert("break"@ != "if"@);
    assert("break"@ != "else"@);
    assert("break"@[0] != "while"@[0]);
    assert("break"@ != "while"@);
    assert("break"@ != "return"@);
    assert("continue"@ != "fn"@);
    assert("continue"@ != "let"@);
    assert("continue"@ != "false"@);
    assert("continue"@ != "true"@);
    assert("continue"@ != "if"@);
    assert("continue"@ != "else"@);
    assert("continue"@ != "while"@);
    assert("continue"@ != "return"@);
    assert("continue"@ != "break"@);
    assert("print"@ != "fn"@);
    assert("print"@ != "let"@);
    assert("print"@[0] != "false"@[0]);
    assert("print"@ != "false"@);
    assert("print"@ != "true"@);
    assert("print"@ != "if"@);
    assert("print"@ != "else"@);
    assert("print"@[0] != "while"@[0]);
    assert("print"@ != "while"@);
    assert("print"@ != "return"@);
    assert("print"@[0] != "break"@[0]);
    assert("print"@ != "break"@);
    assert("print"@ != "continue"@);
    assert("println"@ != "fn"@);
    assert("println"@ != "let"@);
    assert("println"@ != "false"@);
    assert("println"@ != "true"@);
    assert("println"@ != "if"@);
    assert("println"@ != "else"@);
    assert("println"@ != "while"@);
    assert("println"@ != "return"@);
    assert("println"@ != "break"@);
    assert("println"@ != "continue"@);
    assert("println"@ != "print"@);
    assert("int"@ != "fn"@);
    assert("int"@[0] != "let"@[0]);
    assert("int"@ != "let"@);
    assert("int"@ != "false"@);
    assert("int"@ != "true"@);
    assert("int"@ != "if"@);
    assert("int"@ != "else"@);
    assert("int"@ != "while"@);
    assert("int"@ != "return"@);
    assert("int"@ != "break"@);
    assert("int"@ != "continue"@);
    assert("int"@ != "print"@);
    assert("int"@ != "println"@);
    assert("float"@ != "fn"@);
    assert("float"@ != "let"@);
    assert("float"@[1] != "false"@[1]);
    assert("float"@ != "false"@);
    assert("float"@ != "true"@);
    assert("float"@ != "if"@);
    assert("float"@ != "else"@);
    assert("float"@[0] != "while"@[0]);
    assert("float"@ != "while"@);
    assert("float"@ != "return"@);
    assert("float"@[0] != "break"@[0]);
    assert("float"@ != "break"@);
    assert("float"@ != "continue"@);
    assert("float"@[0] != "print"@[0]);
    assert("float"@ != "print"@);
    assert("float"@ != "println"@);
    assert("bool"@ != "fn"@);
    assert("bool"@ != "let"@);
    assert("bool"@ != "false"@);
    assert("bool"@[0] != "true"@[0]);
    assert("bool"@ != "true"@);
    assert("bool"@ != "if"@);
    assert("bool"@[0] != "else"@[0]);
    assert("bool"@ != "else"@);
    assert("bool"@ != "while"@);
    assert("bool"@ != "return"@);
    assert("bool"@ != "break"@);
    assert("bool"@ != "continue"@);
    assert("bool"@ != "print"@);
    assert("bool"@ != "println"@);
    assert("string"@ != "fn"@);
    assert("string"@ != "let"@);
    assert("string"@ != "false"@);
    assert("string"@ != "true"@);
    assert("string"@ != "if"@);
    assert("string"@ != "else"@);
    assert("string"@ != "while"@);
    assert("string"@[0] != "return"@[0]);
    assert("string"@ != "return"@);
    assert("string"@ != "break"@);
    assert("string"@ != "continue"@);
    assert("string"@ != "print"@);
    assert("string"@ != "println"@);
    assert("void"@ != "fn"@);
    assert("void"@ != "let"@);
    assert("void"@ != "false"@);
    assert("void"@[0] != "true"@[0]);
    assert("void"@ != "true"@);
    assert("void"@ != "if"@);
    assert("void"@[0] != "else"@[0]);
    assert("void"@ != "else"@);
    assert("void"@ != "while"@);
    assert("void"@ != "return"@);
    assert("void"@ != "break"@);
    assert("void"@ != "continue"@);
    assert("void"@ != "print"@);
    assert("void"@ != "println"@);
    assert("char"@ != "fn"@);
    assert("char"@ != "let"@);
    assert("char"@ != "false"@);
    assert("char"@[0] != "true"@[0]);
    assert("char"@ != "true"@);
    assert("char"@ != "if"@);
    assert("char"@[0] != "else"@[0]);
    assert("char"@ != "else"@);
    assert("char"@ != "while"@);
    assert("char"@ != "return"@);
    assert("char"@ != "break"@);
    assert("char"@ != "continue"@);
    assert("char"@ != "print"@);
    assert("char"@ != "println"@);
}

/// Reading an identifier on from a character that continues it takes in every character
/// up to the first that does not continue it.
proof fn lemma_scan_ident_run(src: Seq<char>, st: LexState, acc: Seq<char>, c: char, k: int)
    requires
        st.cur <= k <= src.len(),
        forall|j: int| st.cur <= j < k ==> ident_char(#[trigger] src[j]),
        k < src.len() ==> !ident_char(src[k]),
        ident_char(c),
    ensures
        scan_ident(src, st, acc, c).0 == acc.push(c) + src.subrange(st.cur as int, k),
    decreases k - st.cur,
{
    if st.cur == k {
        assert(acc.push(c) + src.subrange(st.cur as int, k) =~= acc.push(c));
        if k < src.len() {
            assert(scan_ident(src, chop_spec(src, st).1, acc.push(c), src[k]).0 == acc.push(c));
        }
    } else {
        let st1 = chop_spec(src, st).1;
        lemma_scan_ident_run(src, st1, acc.push(c), src[st.cur as int], k);
        assert(acc.push(c).push(src[st.cur as int]) + src.subrange((st.cur + 1) as int, k) =~= acc.push(c)
            + src.subrange(st.cur as int, k));
    }
}

/// Reading a number on from a character that continues it takes in every digit and dot
/// up to the first other character.
proof fn lemma_scan_number_run(src: Seq<char>, st: LexState, acc: Seq<char>, c: char, k: int)
    requires
        st.cur <= k <= src.len(),
        forall|j: int| st.cur <= j < k ==> number_char(#[trigger] src[j]),
        k < src.len() ==> !number_char(src[k]),
        number_char(c),
    ensures
        scan_number(src, st, acc, c).0 == acc.push(c) + src.subrange(st.cur as int, k),
    decreases k - st.cur,
{
    if st.cur == k {
        assert(acc.push(c) + src.subrange(st.cur as int, k) =~= acc.push(c));
        if k < src.len() {
            assert(scan_number(src, chop_spec(src, st).1, acc.push(c), src[k]).0 == acc.push(c));
        }
    } else {
        let st1 = chop_spec(src, st).1;
        lemma_scan_number_run(src, st1, acc.push(c), src[st.cur as int], k);
        assert(acc.push(c).push(src[st.cur as int]) + src.subrange((st.cur + 1) as int, k) =~= acc.push(c)
            + src.subrange(st.cur as int, k));
    }
}

/// Reading a string literal on from the character before `st` takes in every character up
/// to and including the first quote.
proof fn lemma_scan_string_run(src: Seq<char>, st: LexState, acc: Seq<char>, c: char, q: int)
    requires
        1 <= st.cur,
        st.cur - 1 <= q < src.len(),
        c == src[st.cur - 1],
        src[q] == '"',
        forall|j: int| st.cur - 1 <= j < q ==> #[trigger] src[j] != '"',
    ensures
        scan_string(src, st, acc, c) == Some(
            (
                acc + src.subrange(st.cur - 1, q + 1),
                LexState { cur: (q + 1) as nat, line: st.line, chr: (st.chr + (q + 1 - st.cur)) as nat },
            ),
        ),
    decreases q + 1 - st.cur,
{
    if st.cur - 1 == q {
        assert(acc + src.subrange(st.cur - 1, q + 1) =~= acc.push('"'));
    } else {
        let st1 = chop_spec(src, st).1;
        lemma_scan_string_run(src, st1, acc.push(c), src[st.cur as int], q);
        assert(acc.push(c) + src.subrange(st.cur as int, q + 1) =~= acc + src.subrange(st.cur - 1, q + 1));
    }
}

/// Identifiers and numbers are read whole: where a letter starts at `st`, the first token
/// of the round is the identifier (or keyword) made of the letter and every letter, digit
/// and underscore after it; where a digit starts, the first token is the number made of the
/// digit and every digit and dot after it. Either is placed at the column of its first
/// character.
pub proof fn lemma_words_read_whole(src: Seq<char>, file: Seq<char>, st: LexState, k: int)
    requires
        st.cur < k <= src.len(),
    ensures
        ascii_alphabetic(src[st.cur as int]) && (forall|j: int| st.cur < j < k ==> ident_char(
            #[trigger] src[j],
        )) && (k < src.len() ==> !ident_char(src[k])) ==> match lex_round(src, file, st) {
            Ok((ts, _)) => ts.len() > 0 && ts[0] == tok_at(
                file,
                identify(src.subrange(st.cur as int, k)),
                st.line,
                st.chr + 1,
            ),
            Err(_) => true,
        },
        decimal_digit(src[st.cur as int]) && (forall|j: int| st.cur < j < k ==> number_char(
            #[trigger] src[j],
        )) && (k < src.len() ==> !number_char(src[k])) ==> match lex_round(src, file, st) {
            Ok((ts, _)) => ts.len() > 0 && ts[0] == tok_at(
                file,
                KindView::Number(src.subrange(st.cur as int, k)),
                st.line,
                st.chr + 1,
            ),
            Err(_) => true,
        },
{
    let c0 = src[st.cur as int];
    let st0 = after_char(st);
    assert(chop_spec(src, st) == (c0, st0));
    let (c1, st1) = chop_spec(src, st0);
    if ascii_alphabetic(c0) && (forall|j: int| st.cur < j < k ==> ident_char(#[trigger] src[j])) && (
    k < src.len() ==> !ident_char(src[k])) {
        if ident_char(c1) {
            assert(st0.cur < src.len());
            lemma_scan_ident_run(src, st1, seq![c0], c1, k);
            assert(seq![c0].push(c1) + src.subrange(st1.cur as int, k) =~= src.subrange(
                st.cur as int,
                k,
            ));
        } else {
            if st0.cur < src.len() {
                assert(k == st0.cur);
            } else {
                assert(k == src.len());
            }
            assert(seq![c0] =~= src.subrange(st.cur as int, k));
        }
        let (ts1, c2, st2) = ident_part(src, file, c0, st0);
        assert(ts1 == seq![tok_at(file, identify(src.subrange(st.cur as int, k)), st.line, st.chr + 1)]);
        let (ts2, c3, st3) = number_part(src, file, c2, st2);
        assert((ts1 + ts2)[0] == ts1[0]);
        reveal(punct);
        match lex_round(src, file, st) {
            Ok((ts, _)) => {
                assert(ts[0] == (ts1 + ts2)[0]);
            },
            Err(_) => {},
        }
    }
    if decimal_digit(c0) && (forall|j: int| st.cur < j < k ==> number_char(#[trigger] src[j])) && (
    k < src.len() ==> !number_char(src[k])) {
        if number_char(c1) {
            assert(st0.cur < src.len());
            lemma_scan_number_run(src, st1, seq![c0], c1, k);
            assert(seq![c0].push(c1) + src.subrange(st1.cur as int, k) =~= src.subrange(
                st.cur as int,
                k,
            ));
        } else {
            if st0.cur < src.len() {
                assert(k == st0.cur);
            } else {
                assert(k == src.len());
            }
            assert(seq![c0] =~= src.subrange(st.cur as int, k));
        }
        let (ts2, c3, st3) = number_part(src, file, c0, st0);
        assert(ts2 == seq![tok_at(file, KindView::Number(src.subrange(st.cur as int, k)), st.line, st.chr + 1)]);
        let e: Seq<TokenView> = seq![];
        assert((e + ts2)[0] == ts2[0]);
        reveal(punct);
        match lex_round(src, file, st) {
            Ok((ts, _)) => {
                assert(ts[0] == (e + ts2)[0]);
            },
            Err(_) => {},
        }
    }
}

/// A string literal is read up to and including its closing quote, quotes kept, as one
/// token placed at the column of its opening quote; the lexer goes on after the closing
/// quote.
pub proof fn lemma_string_literal_token(src: Seq<char>, file: Seq<char>, st: LexState, q: int)
    requires
        st.cur < q < src.len(),
        src[st.cur as int] == '"',
        src[q] == '"',
        forall|j: int| st.cur < j < q ==> #[trigger] src[j] != '"',
    ensures
        lex_round(src, file, st) == Ok::<(Seq<TokenView>, LexState), LexError>(
            (
                seq![tok_at(file, KindView::Str(src.subrange(st.cur as int, q + 1)), st.line, st.chr + 1)],
                LexState { cur: (q + 1) as nat, line: st.line, chr: (st.chr + (q + 1 - st.cur)) as nat },
            ),
        ),
{
    let st0 = after_char(st);
    let e: Seq<TokenView> = seq![];
    assert(chop_spec(src, st) == ('"', st0));
    assert(lead(src, file, st) == (e + e, '"', st0));
    let (c3, st3) = chop_spec(src, st0);
    lemma_scan_string_run(src, st3, seq!['"'], c3, q);
    assert(seq!['"'] + src.subrange(st3.cur - 1, q + 1) =~= src.subrange(st.cur as int, q + 1));
    assert((e + e).push(tok_at(file, KindView::Str(src.subrange(st.cur as int, q + 1)), st.line, st.chr + 1))
        =~= seq![tok_at(file, KindView::Str(src.subrange(st.cur as int, q + 1)), st.line, st.chr + 1)]);
}

/// The lexer's state.
pub struct Lexer {
    filename: String,
    source: Vec<char>,
    cursor: usize,
    line: usize,
    chr: usize,
    source_len: usize,
}

impl Lexer {
    /// The source characters.
    pub closed spec fn chars(&self) -> Seq<char> {
        self.source@
    }

    /// The name of the file that the source came from.
    pub closed spec fn file(&self) -> Seq<char> {
        self.filename@
    }

    /// The length that the lexer reads up to: the source's length in bytes.
    pub closed spec fn source_len(&self) -> nat {
        self.source_len as nat
    }

    /// The lexer's position.
    pub closed spec fn state(&self) -> LexState {
        LexState { cur: self.cursor as nat, line: self.line as nat, chr: self.chr as nat }
    }

    /// Whether the lexer can run to the end: the source is ASCII, so that its length in
    /// bytes is its number of characters, and the position is one the lexer can reach.
    pub closed spec fn lexable(&self) -> bool {
        &&& self.source_len == self.source@.len()
        &&& self.source_len < usize::MAX
        &&& forall|i: int| 0 <= i < self.source@.len() ==> is_ascii_char(#[trigger] self.source@[i])
        &&& self.cursor <= self.source_len
        &&& 1 <= self.line
        &&& self.line + self.chr <= self.cursor + 1
    }

    /// A lexer at the start of `source`, read from the file `filename`.
    pub fn new(filename: &str, source: String) -> (r: Self)
        ensures
            r.file() == filename@,
            r.chars() == source@,
            vstd::string::string_is_ascii(&source) ==> r.source_len() == source@.len(),
            r.state() == (LexState { cur: 0, line: 1, chr: 0 }),
            vstd::string::string_is_ascii(&source) && source@.len() < usize::MAX ==> r.lexable(),
    {
        let text = source.as_str();
        let mut chars: Vec<char> = Vec::new();
        for c in it: text.chars()
            invariant
                chars@.len() == it.index(),
                forall|j: int| 0 <= j < it.index() ==> chars@[j] == it.seq()[j],
        {
            chars.push(c);
        }
        proof {
            broadcast use vstd::string::axiom_spec_iter;

        }
        assert(text@ == source@);
        assert(chars@ =~= source@);
        let count = chars.len();
        assert(count == text@.len());
        let source_len = text.len();
        proof {
            broadcast use vstd::string::is_ascii_spec_bytes;

            if vstd::string::is_ascii(text) {
                assert(text.spec_bytes().len() == text@.len());
            }
        }
        Lexer {
            filename: String::from_str(filename),
            source: chars,
            cursor: 0,
            line: 1,
            chr: 0,
            source_len: source_len,
        }
    }

    /// The source's tokens, ending with an end-of-file token, or the error that stops
    /// the lexer.
    pub fn lex(&mut self) -> (r: Result<Vec<Token>, LexError>)
        requires
            old(self).lexable(),
        ensures
            final(self).chars() == old(self).chars(),
            final(self).file() == old(self).file(),
            match (r, lex_from(old(self).chars(), old(self).file(), old(self).state())) {
                (Ok(ts), Ok(vs)) => views(ts@) == vs,
                (Err(e), Err(f)) => e == f,
                _ => false,
            },
    {
        let mut tokens: Vec<Token> = Vec::new();
        let ghost src = self.chars();
        let ghost file = self.file();
        let ghost st0 = self.state();
        while self.cursor < self.source_len
            invariant
                self.lexable(),
                self.chars() == src,
                self.file() == file,
                src == old(self).chars(),
                file == old(self).file(),
                st0 == old(self).state(),
                lex_from(src, file, st0) == prepend(
                    views(tokens@),
                    lex_from(src, file, self.state()),
                ),
            decreases self.source_len - self.cursor,
        {
            let ghost before = self.state();
            let ghost seen = views(tokens@);
            let round = self.round(&mut tokens);
            match round {
                Err(e) => {
                    assert(lex_from(src, file, before) == Err::<Seq<TokenView>, LexError>(e));
                    return Err(e);
                },
                Ok(()) => {
                    let ghost ts = lex_round(src, file, before)->Ok_0.0;
                    assert(views(tokens@) =~= seen + ts);
                    proof { lemma_prepend_concat(seen, ts, lex_from(src, file, self.state())); }
                },
            }
        }
        let eof = self.token(TokenKind::EOF);
        tokens.push(eof);
        assert(views(tokens@) =~= views(tokens@.drop_last()).push(eof@));
        Ok(tokens)
    }

    /// One round of the lexer: the tokens it adds are pushed onto `tokens`.
    fn round(&mut self, tokens: &mut Vec<Token>) -> (r: Result<(), LexError>)
        requires
            old(self).lexable(),
            old(self).cursor < old(self).source_len,
        ensures
            final(self).lexable(),
            final(self).chars() == old(self).chars(),
            final(self).file() == old(self).file(),
            match lex_round(old(self).chars(), old(self).file(), old(self).state()) {
                Ok((ts, st)) => {
                    &&& r is Ok
                    &&& views(final(tokens)@) == views(old(tokens)@) + ts
                    &&& final(self).state() == st
                    &&& old(self).cursor < final(self).cursor
                },
                Err(e) => r == Err::<(), LexError>(e),
            },
    {
        let ghost old_views = views(tokens@);
        let c = self.lead(tokens);
        let ghost ts = lead(old(self).chars(), old(self).file(), old(self).state()).0;
        assert(views(tokens@) == old_views + ts);
        let r = self.finish(tokens, c);
        proof {
            match finish(self.chars(), self.file(), ts, c, lead(old(self).chars(), old(self).file(), old(self).state()).2) {
                Ok((ts2, st2)) => {
                    assert(views(tokens@) =~= old_views + ts2);
                },
                Err(_) => {},
            }
        }
        r
    }

    /// The start of a round: reads the next character and an identifier, then a number,
    /// that start with it, pushing their tokens; gives the character after them.
    fn lead(&mut self, tokens: &mut Vec<Token>) -> (c: char)
        requires
            old(self).lexable(),
            old(self).cursor < old(self).source_len,
        ensures
            final(self).lexable(),
            final(self).chars() == old(self).chars(),
            final(self).file() == old(self).file(),
            old(self).cursor < final(self).cursor,
            final(self).chr >= 1,
            is_ascii_char(c),
            ({
                let (ts, c2, st2) = lead(old(self).chars(), old(self).file(), old(self).state());
                &&& views(final(tokens)@) == views(old(tokens)@) + ts
                &&& c == c2
                &&& final(self).state() == st2
            }),
    {
        let ghost src = self.chars();
        let ghost file = self.file();
        let ghost old_views = views(tokens@);
        let mut c = self.chop();
        let ghost st0 = self.state();
        let ghost c0 = c;
        if is_alphabetic(c) {
            let start = self.chr;
            let line = self.line;
            let mut value = String::new();
            push_char(&mut value, c);
            c = self.chop();
            c = self.scan_ident(&mut value, c);
            let kind = self.identify_symbol_or_keyword(value);
            tokens.push(Token { origin_file: self.filename.clone(), kind: kind, pos: (line, start) });
        }
        let ghost ts1 = ident_part(src, file, c0, st0).0;
        let ghost c1 = c;
        let ghost st1 = self.state();
        assert(ident_part(src, file, c0, st0) == (ts1, c1, st1));
        assert(views(tokens@) =~= old_views + ts1);
        if is_digit(c) {
            let start = self.chr;
            let line = self.line;
            let mut value = String::new();
            push_char(&mut value, c);
            c = self.chop();
            c = self.scan_number(&mut value, c);
            tokens.push(Token { origin_file: self.filename.clone(), kind: TokenKind::Number(value), pos: (line, start) });
        }
        let ghost ts2 = number_part(src, file, c1, st1).0;
        let ghost st2 = self.state();
        assert(number_part(src, file, c1, st1) == (ts2, c, st2));
        assert(views(tokens@) =~= old_views + (ts1 + ts2));
        c
    }

    /// The rest of a round, `c` having been read.
    fn finish(&mut self, tokens: &mut Vec<Token>, c: char) -> (r: Result<(), LexError>)
        requires
            old(self).lexable(),
            old(self).chr >= 1,
            is_ascii_char(c),
        ensures
            final(self).lexable(),
            final(self).chars() == old(self).chars(),
            final(self).file() == old(self).file(),
            old(self).cursor <= final(self).cursor,
            match finish(old(self).chars(), old(self).file(), views(old(tokens)@), c, old(self).state()) {
                Ok((ts, st)) => {
                    &&& r is Ok
                    &&& views(final(tokens)@) == ts
                    &&& final(self).state() == st
                },
                Err(e) => r == Err::<(), LexError>(e),
            },
    {
        let ghost views2 = views(tokens@);
        let mut c = c;
        if c == '"' {
            let start = self.chr;
            let line = self.line;
            let mut value = char_string('"');
            c = self.chop();
            match self.scan_string(&mut value, c) {
                Some(()) => {},
                None => {
                    return Err(LexError::UnterminatedString { line: line, column: start });
                },
            }
            let tok = Token { origin_file: self.filename.clone(), kind: TokenKind::Str(value), pos: (line, start) };
            tokens.push(tok);
            assert(views(tokens@) =~= views2.push(tok@));
            return Ok(());
        }
        if c == '\'' {
            let start = self.chr;
            let line = self.line;
            let mut value = char_string('\'');
            c = self.chop();
            push_char(&mut value, c);
            c = self.chop();
            if c != '\'' {
                return Err(LexError::BadCharLiteral { line: self.line, column: self.chr, found: c });
            }
            push_char(&mut value, c);
            let tok = Token { origin_file: self.filename.clone(), kind: TokenKind::Char(value), pos: (line, start) };
            tokens.push(tok);
            assert(value@ =~= seq!['\'', value@[1], '\'']);
            assert(views(tokens@) =~= views2.push(tok@));
            return Ok(());
        }
        if is_whitespace(c) && c != '\n' {
            return Ok(());
        }
        self.punct(c, tokens);
        Ok(())
    }

    /// Reads on while the current character continues an identifier, appending it to `value`.
    fn scan_ident(&mut self, value: &mut String, first: char) -> (r: char)
        requires
            old(self).lexable(),
            is_ascii_char(first),
        ensures
            final(self).lexable(),
            final(self).chars() == old(self).chars(),
            final(self).file() == old(self).file(),
            old(self).cursor <= final(self).cursor,
            old(self).chr <= final(self).chr,
            is_ascii_char(r),
            (final(value)@, r, final(self).state()) == scan_ident(
                old(self).chars(),
                old(self).state(),
                old(value)@,
                first,
            ),
    {
        let ghost src = self.chars();
        let ghost goal = scan_ident(src, self.state(), value@, first);
        let ghost cur0 = self.cursor;
        let mut c = first;
        while is_alphabetic(c) || is_digit(c) || c == '_'
            invariant
                self.lexable(),
                self.chars() == src,
                self.file() == old(self).file(),
                cur0 <= self.cursor,
                old(self).chr <= self.chr,
                is_ascii_char(c),
                goal == scan_ident(src, self.state(), value@, c),
            decreases self.source_len - self.cursor + (if ident_char(c) { 1int } else { 0 }),
        {
            push_char(value, c);
            c = self.chop();
        }
        c
    }

    /// Reads on while the current character continues a number, appending it to `value`.
    fn scan_number(&mut self, value: &mut String, first: char) -> (r: char)
        requires
            old(self).lexable(),
            is_ascii_char(first),
        ensures
            final(self).lexable(),
            final(self).chars() == old(self).chars(),
            final(self).file() == old(self).file(),
            old(self).cursor <= final(self).cursor,
            old(self).chr <= final(self).chr,
            is_ascii_char(r),
            (final(value)@, r, final(self).state()) == scan_number(
                old(self).chars(),
                old(self).state(),
                old(value)@,
                first,
            ),
    {
        let ghost src = self.chars();
        let ghost goal = scan_number(src, self.state(), value@, first);
        let ghost cur0 = self.cursor;
        let mut c = first;
        while is_digit(c) || c == '.'
            invariant
                self.lexable(),
                self.chars() == src,
                self.file() == old(self).file(),
                cur0 <= self.cursor,
                old(self).chr <= self.chr,
                is_ascii_char(c),
                goal == scan_number(src, self.state(), value@, c),
            decreases self.source_len - self.cursor + (if number_char(c) { 1int } else { 0 }),
        {
            push_char(value, c);
            c = self.chop();
        }
        c
    }

    /// Reads a string literal up to its closing quote, appending it to `value`; `None`
    /// where the source ends first.
    fn scan_string(&mut self, value: &mut String, first: char) -> (r: Option<()>)
        requires
            old(self).lexable(),
            is_ascii_char(first),
        ensures
            final(self).lexable(),
            final(self).chars() == old(self).chars(),
            final(self).file() == old(self).file(),
            old(self).cursor <= final(self).cursor,
            old(self).chr <= final(self).chr,
            match scan_string(old(self).chars(), old(self).state(), old(value)@, first) {
                Some((v, st)) => r is Some && final(value)@ == v && final(self).state() == st,
                None => r is None,
            },
    {
        let ghost src = self.chars();
        let ghost goal = scan_string(src, self.state(), value@, first);
        let ghost cur0 = self.cursor;
                let mut c = first;
        while c != '"'
            invariant
                self.lexable(),
                self.chars() == src,
                src == old(self).chars(),
                cur0 == old(self).cursor,
                old(self).chr <= self.chr,
                goal == scan_string(old(self).chars(), old(self).state(), old(value)@, first),
                self.file() == old(self).file(),
                cur0 <= self.cursor,
                is_ascii_char(c),
                goal == scan_string(src, self.state(), value@, c),
            decreases self.source_len - self.cursor,
        {
            if self.cursor >= self.source_len {
                assert(scan_string(src, self.state(), value@, c) is None);
                assert(goal is None);
                assert(scan_string(old(self).chars(), old(self).state(), old(value)@, first) is None);
                return None;
            }
            push_char(value, c);
            c = self.chop();
        }
        push_char(value, c);
        Some(())
    }

    /// Handles a character that is neither part of a literal nor a blank other than a
    /// line break.
    fn punct(&mut self, c: char, tokens: &mut Vec<Token>)
        requires
            old(self).lexable(),
            old(self).chr >= 1,
        ensures
            final(self).lexable(),
            final(self).chars() == old(self).chars(),
            final(self).file() == old(self).file(),
            old(self).cursor <= final(self).cursor,
            ({
                let (ts, st) = punct(old(self).chars(), old(self).file(), c, old(self).state());
                &&& views(final(tokens)@) == views(old(tokens)@) + ts
                &&& final(self).state() == st
            }),
    {
        reveal(punct);
        let ghost before = views(tokens@);
        if c == '\n' {
            self.line = self.line + 1;
            self.chr = 0;
            assert(views(tokens@) =~= before + seq![]);
            return ;
        }
        let kind = if c == '(' {
            Some(TokenKind::OpenParen)
        } else if c == ')' {
            Some(TokenKind::CloseParen)
        } else if c == '{' {
            Some(TokenKind::OpenCurly)
        } else if c == '}' {
            Some(TokenKind::CloseCurly)
        } else if c == ',' {
            Some(TokenKind::Comma)
        } else if c == ';' {
            Some(TokenKind::Semicolon)
        } else if c == ':' {
            Some(TokenKind::Colon)
        } else {
            None
        };
        match kind {
            Some(k) => {
                let t = self.token(k);
                tokens.push(t);
                assert(views(tokens@) =~= before + seq![t@]);
                return ;
            },
            None => {},
        }
        if c == '=' {
            self.two_char_op(tokens, '=', TokenKind::Equals, Some(TokenKind::Equal));
        } else if c == '+' {
            self.two_char_op(tokens, '=', TokenKind::PlusEq, Some(TokenKind::Plus));
        } else if c == '-' {
            self.two_char_op(tokens, '=', TokenKind::MinusEq, Some(TokenKind::Minus));
        } else if c == '*' {
            self.two_char_op(tokens, '=', TokenKind::MulEq, Some(TokenKind::Mul));
        } else if c == '/' {
            self.two_char_op(tokens, '=', TokenKind::DivEq, Some(TokenKind::Div));
        } else if c == '%' {
            self.two_char_op(tokens, '=', TokenKind::ModuloEq, Some(TokenKind::Modulo));
        } else if c == '<' {
            self.two_char_op(tokens, '=', TokenKind::LessEq, Some(TokenKind::Less));
        } else if c == '>' {
            self.two_char_op(tokens, '=', TokenKind::GreaterEq, Some(TokenKind::Greater));
        } else if c == '&' {
            self.two_char_op(tokens, '&', TokenKind::And, None);
        } else if c == '|' {
            self.two_char_op(tokens, '|', TokenKind::Or, None);
        } else if c == '!' {
            self.two_char_op(tokens, '=', TokenKind::NotEq, Some(TokenKind::Not));
        } else {
            let t = self.token(TokenKind::Unknown(char_string(c)));
            tokens.push(t);
            assert(views(tokens@) =~= before + seq![t@]);
        }
    }

    /// Pushes the long kind and reads the second character where it follows, else pushes
    /// the short kind, if there is one.
    fn two_char_op(
        &mut self,
        tokens: &mut Vec<Token>,
        second: char,
        long: TokenKind,
        short: Option<TokenKind>,
    )
        requires
            old(self).lexable(),
        ensures
            final(self).lexable(),
            final(self).chars() == old(self).chars(),
            final(self).file() == old(self).file(),
            old(self).cursor <= final(self).cursor,
            ({
                let short_view = match short {
                    Some(k) => Some(k@),
                    None => None,
                };
                let (ts, st) = two_char_op(
                    old(self).chars(),
                    old(self).file(),
                    old(self).state(),
                    second,
                    long@,
                    short_view,
                );
                &&& views(final(tokens)@) == views(old(tokens)@) + ts
                &&& final(self).state() == st
            }),
    {
        let ghost before = views(tokens@);
        if self.current() == second {
            let t = self.token(long);
            tokens.push(t);
            let _ = self.chop();
            assert(views(tokens@) =~= before + seq![t@]);
        } else {
            match short {
                Some(k) => {
                    let t = self.token(k);
                    tokens.push(t);
                    assert(views(tokens@) =~= before + seq![t@]);
                },
                None => {
                    assert(views(tokens@) =~= before + seq![]);
                },
            }
        }
    }

    /// A token of the given kind at the current position.
    fn token(&self, kind: TokenKind) -> (r: Token)
        ensures
            r@ == tok_here(self.file(), kind@, self.state()),
    {
        Token { origin_file: self.filename.clone(), kind: kind, pos: (self.line, self.chr) }
    }

    /// Reads the next character; a space once the source is exhausted.
    fn chop(&mut self) -> (r: char)
        requires
            old(self).lexable(),
        ensures
            final(self).lexable(),
            final(self).chars() == old(self).chars(),
            final(self).file() == old(self).file(),
            (r, final(self).state()) == chop_spec(old(self).chars(), old(self).state()),
            is_ascii_char(r),
            old(self).cursor <= final(self).cursor,
            old(self).chr <= final(self).chr,
    {
        if self.cursor >= self.source_len {
            return ' ';
        }
        let c = self.source[self.cursor];
        self.cursor = self.cursor + 1;
        self.chr = self.chr + 1;
        c
    }

    /// The next character without reading it; a space once the source is exhausted.
    fn current(&self) -> (r: char)
        requires
            self.lexable(),
        ensures
            r == peek_spec(self.chars(), self.state()),
    {
        if self.cursor >= self.source_len {
            return ' ';
        }
        self.source[self.cursor]
    }

    /// The kind of an identifier.
    fn identify_symbol_or_keyword(&self, value: String) -> (r: TokenKind)
        ensures
            r@ == identify(value@),
    {
        let v = value.as_str();
        if text_equals(v, "fn") {
            TokenKind::Func
        } else if text_equals(v, "let") {
            TokenKind::Let
        } else if text_equals(v, "false") {
            TokenKind::False
        } else if text_equals(v, "true") {
            TokenKind::True
        } else if text_equals(v, "if") {
            TokenKind::If
        } else if text_equals(v, "else") {
            TokenKind::Else
        } else if text_equals(v, "while") {
            TokenKind::While
        } else if text_equals(v, "return") {
            TokenKind::Return
        } else if text_equals(v, "break") {
            TokenKind::Break
        } else if text_equals(v, "continue") {
            TokenKind::Continue
        } else if text_equals(v, "print") {
            TokenKind::Print
        } else if text_equals(v, "println") {
            TokenKind::Println
        } else if text_equals(v, "int") || text_equals(v, "float") || text_equals(v, "bool")
            || text_equals(v, "string") || text_equals(v, "void") || text_equals(v, "char") {
            TokenKind::PrimitiveType(value)
        } else {
            TokenKind::Symbol(value)
        }
    }
}

/// The models of a sequence of tokens.
pub open spec fn views(ts: Seq<Token>) -> Seq<TokenView> {
    ts.map_values(|t: Token| t@)
}

/// `done` followed by what `rest` holds, or the error of `rest`.
pub open spec fn prepend(done: Seq<TokenView>, rest: Result<Seq<TokenView>, LexError>) -> Result<
    Seq<TokenView>,
    LexError,
> {
    match rest {
        Ok(vs) => Ok(done + vs),
        Err(e) => Err(e),
    }
}

proof fn lemma_prepend_concat(a: Seq<TokenView>, b: Seq<TokenView>, r: Result<Seq<TokenView>, LexError>)
    ensures
        prepend(a, prepend(b, r)) == prepend(a + b, r),
{
    match r {
        Ok(vs) => {
            assert(a + (b + vs) =~= (a + b) + vs);
        },
        Err(_) => {},
    }
}

} // verus!
