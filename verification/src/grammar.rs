//! The grammar that the parser recognises, as functions from a token sequence and a
//! position to what is parsed there and the position after it.
//!
//! Every function takes the tokens and a position, and gives the parsed item with the
//! position after it, or the error found. Where one part follows another, the second is
//! read only from a position after the first; that is what makes these definitions well
//! founded.
use vstd::prelude::*;

use crate::ast::{expr_token, ExprV, StmtV};
use crate::token::{Token, TokenKind};

verus! {

/// Why parsing stopped.
#[derive(Debug, PartialEq)]
pub enum ParseError {
    /// A token other than the kind of thing the grammar expects there.
    Unexpected { expected: &'static str, found: Token },
    /// A misplaced construct: an assignment to something that is not a variable, or a call
    /// with too many arguments.
    Invalid { message: &'static str, at: Token },
    /// A required token that is not there; `found` is the token in its place.
    Missing { message: &'static str, found: Token },
}

/// What parsing something at a position gives: the item and the position after it.
pub type Parsed<T> = Result<(T, int), ParseError>;

/// Tokens the parser can work on: at least one, the last an end-of-file token.
pub open spec fn well_formed(toks: Seq<Token>) -> bool {
    toks.len() > 0 && toks.last().kind is EOF
}

/// The result of an item read at `c`, provided it ends at a later position before the
/// last token.
pub open spec fn adv<T>(toks: Seq<Token>, c: int, r: Parsed<T>) -> Parsed<T> {
    match r {
        Ok((t, c2)) => if c < c2 < toks.len() {
            Ok((t, c2))
        } else {
            Err(arbitrary())
        },
        Err(e) => Err(e),
    }
}

/// The result of a possibly empty item read at `c`, provided it does not end before `c`
/// nor at or after the last token.
pub open spec fn adv0<T>(toks: Seq<Token>, c: int, r: Parsed<T>) -> Parsed<T> {
    match r {
        Ok((t, c2)) => if c <= c2 < toks.len() {
            Ok((t, c2))
        } else {
            Err(arbitrary())
        },
        Err(e) => Err(e),
    }
}

/// The punctuation that the grammar requires at some places.
#[derive(Debug, Clone, Copy, PartialEq, Eq)]
pub enum Punct {
    OpenParen,
    CloseParen,
    OpenCurly,
    CloseCurly,
    Semicolon,
    Colon,
    Equal,
}

/// Whether a token kind is the given punctuation.
pub open spec fn is_punct(k: TokenKind, p: Punct) -> bool {
    match p {
        Punct::OpenParen => k is OpenParen,
        Punct::CloseParen => k is CloseParen,
        Punct::OpenCurly => k is OpenCurly,
        Punct::CloseCurly => k is CloseCurly,
        Punct::Semicolon => k is Semicolon,
        Punct::Colon => k is Colon,
        Punct::Equal => k is Equal,
    }
}

/// Reading a token that must be the punctuation `p`: the position after it,
/// or `message` with the token found in its place.
pub open spec fn expect(toks: Seq<Token>, c: int, p: Punct, message: &'static str) -> Result<
    int,
    ParseError,
> {
    if !(0 <= c < toks.len()) {
        Err(arbitrary())
    } else if is_punct(toks[c].kind, p) {
        Ok(c + 1)
    } else {
        Err(ParseError::Missing { message: message, found: toks[c] })
    }
}

/// Whether a token names a symbol.
pub open spec fn is_symbol(t: Token) -> bool {
    t.kind is Symbol
}

/// Whether a token names a type: a symbol or a primitive type.
pub open spec fn is_type_name(t: Token) -> bool {
    t.kind is Symbol || t.kind is PrimitiveType
}


/// A program: the statements up to the end-of-file token.
pub open spec fn program_at(toks: Seq<Token>, c: int) -> Result<Seq<StmtV>, ParseError>
    decreases toks.len() - c,
{
    if !(0 <= c < toks.len()) {
        arbitrary()
    } else if toks[c].kind is EOF {
        Ok(seq![])
    } else {
        match adv(toks, c, stmt_at(toks, c)) {
            Err(e) => Err(e),
            Ok((s, c2)) => match program_at(toks, c2) {
                Ok(rest) => Ok(seq![s] + rest),
                Err(e) => Err(e),
            },
        }
    }
}

/// A statement.
pub open spec fn stmt_at(toks: Seq<Token>, c: int) -> Parsed<StmtV>
    decreases toks.len() - c, 50int,
{
    if !(0 <= c < toks.len()) {
        arbitrary()
    } else {
        let k = toks[c].kind;
        if k is Func {
            fn_at(toks, c + 1)
        } else if k is Print || k is Println {
            print_at(toks, c + 1, k is Println)
        } else if k is Return {
            return_at(toks, c + 1, toks[c])
        } else if k is Let {
            let_at(toks, c + 1)
        } else if k is While {
            while_at(toks, c + 1)
        } else if k is If {
            if_at(toks, c + 1)
        } else if k is Break {
            match expect(toks, c + 1, Punct::Semicolon, "expected ';' after break") {
                Ok(c2) => Ok((StmtV::Break(toks[c]), c2)),
                Err(e) => Err(e),
            }
        } else if k is Continue {
            match expect(toks, c + 1, Punct::Semicolon, "expected ';' after continue") {
                Ok(c2) => Ok((StmtV::Continue(toks[c]), c2)),
                Err(e) => Err(e),
            }
        } else if k is OpenCurly {
            match block_at(toks, c) {
                Ok((ss, c2)) => Ok((StmtV::Block(ss), c2)),
                Err(e) => Err(e),
            }
        } else {
            match adv(toks, c, expr_at(toks, c)) {
                Err(e) => Err(e),
                Ok((e, c1)) => match expect(
                    toks,
                    c1,
                    Punct::Semicolon,
                    "expected ';' after expression",
                ) {
                    Ok(c2) => Ok((StmtV::Expression(e), c2)),
                    Err(err) => Err(err),
                },
            }
        }
    }
}

/// A function definition, after `fn`: its name, its parameters in brackets, its return
/// type and its body.
pub open spec fn fn_at(toks: Seq<Token>, c: int) -> Parsed<StmtV>
    decreases toks.len() - c, 60int,
{
    if !(0 <= c < toks.len()) {
        arbitrary()
    } else if !is_symbol(toks[c]) {
        Err(ParseError::Unexpected { expected: "symbol", found: toks[c] })
    } else {
        match expect(toks, c + 1, Punct::OpenParen, "expected '('") {
            Err(e) => Err(e),
            Ok(c1) => {
                let params: Parsed<Seq<(Token, Token)>> = if !(c1 < toks.len()) {
                    Err(arbitrary())
                } else {
                    param_list_at(toks, c1)
                };
                match params {
                    Err(e) => Err(e),
                    Ok((ps, c3)) => match expect(
                        toks,
                        c3,
                        Punct::CloseParen,
                        "expected ')' after parameter list",
                    ) {
                        Err(e) => Err(e),
                        Ok(c4) => if !(c4 < toks.len()) {
                            arbitrary()
                        } else if !is_type_name(toks[c4]) {
                            Err(
                                ParseError::Unexpected {
                                    expected: "symbol or primitive type",
                                    found: toks[c4],
                                },
                            )
                        } else {
                            match adv(toks, c4 + 1, block_at(toks, c4 + 1)) {
                                Err(e) => Err(e),
                                Ok((body, c5)) => Ok(
                                    (
                                        StmtV::Func(
                                            toks[c],
                                            ps,
                                            toks[c4],
                                            Box::new(StmtV::Block(body)),
                                        ),
                                        c5,
                                    ),
                                ),
                            }
                        },
                    },
                }
            },
        }
    }
}

/// The parameters of a function definition, separated by commas, up to the closing bracket.
pub open spec fn param_list_at(toks: Seq<Token>, c: int) -> Parsed<Seq<(Token, Token)>> {
    if toks[c].kind is CloseParen {
        Ok((seq![], c))
    } else {
        match adv(toks, c, param_at(toks, c)) {
            Err(e) => Err(e),
            Ok((p, c2)) => adv0(toks, c2, params_more(toks, c2, seq![p])),
        }
    }
}

/// A parameter: a name, a colon and a type.
pub open spec fn param_at(toks: Seq<Token>, c: int) -> Parsed<(Token, Token)> {
    if !(0 <= c < toks.len()) {
        arbitrary()
    } else if !is_symbol(toks[c]) {
        Err(ParseError::Unexpected { expected: "symbol", found: toks[c] })
    } else {
        match expect(toks, c + 1, Punct::Colon, "expected ':' after symbol") {
            Err(e) => Err(e),
            Ok(c1) => if !(c1 < toks.len()) {
                arbitrary()
            } else if !is_type_name(toks[c1]) {
                Err(ParseError::Unexpected { expected: "symbol or primitive type", found: toks[c1] })
            } else {
                Ok(((toks[c], toks[c1]), c1 + 1))
            },
        }
    }
}

/// Further parameters, each after a comma, following those in `acc`.
pub open spec fn params_more(toks: Seq<Token>, c: int, acc: Seq<(Token, Token)>) -> Parsed<
    Seq<(Token, Token)>,
>
    decreases toks.len() - c,
{
    if !(0 <= c < toks.len()) {
        arbitrary()
    } else if toks[c].kind is Comma {
        match adv(toks, c + 1, param_at(toks, c + 1)) {
            Err(e) => Err(e),
            Ok((p, c2)) => params_more(toks, c2, acc.push(p)),
        }
    } else {
        Ok((acc, c))
    }
}

/// A print statement, after `print` or `println`.
pub open spec fn print_at(toks: Seq<Token>, c: int, newline: bool) -> Parsed<StmtV>
    decreases toks.len() - c, 60int,
{
    if !(0 <= c < toks.len()) {
        arbitrary()
    } else {
        match adv(toks, c, expr_at(toks, c)) {
            Err(e) => Err(e),
            Ok((e, c1)) => match expect(
                toks,
                c1,
                Punct::Semicolon,
                "expected ';' after print",
            ) {
                Err(err) => Err(err),
                Ok(c2) => Ok((StmtV::Print(e, newline), c2)),
            },
        }
    }
}

/// A return statement, after the `return` token `t`.
pub open spec fn return_at(toks: Seq<Token>, c: int, t: Token) -> Parsed<StmtV>
    decreases toks.len() - c, 60int,
{
    if !(0 <= c < toks.len()) {
        arbitrary()
    } else if toks[c].kind is Semicolon {
        Ok((StmtV::Return(t, None), c + 1))
    } else {
        match adv(toks, c, expr_at(toks, c)) {
            Err(e) => Err(e),
            Ok((e, c1)) => match expect(
                toks,
                c1,
                Punct::Semicolon,
                "expected ';' after return",
            ) {
                Err(err) => Err(err),
                Ok(c2) => Ok((StmtV::Return(t, Some(e)), c2)),
            },
        }
    }
}

/// A variable definition, after `let`: a name, a colon, a type, `=`, an expression and
/// a semicolon. A bad type is reported at the name.
pub open spec fn let_at(toks: Seq<Token>, c: int) -> Parsed<StmtV>
    decreases toks.len() - c, 60int,
{
    if !(0 <= c < toks.len()) {
        arbitrary()
    } else if !is_symbol(toks[c]) {
        Err(ParseError::Unexpected { expected: "symbol", found: toks[c] })
    } else {
        match expect(toks, c + 1, Punct::Colon, "expected ':' after symbol") {
            Err(e) => Err(e),
            Ok(c1) => if !(c1 < toks.len()) {
                arbitrary()
            } else if !is_type_name(toks[c1]) {
                Err(ParseError::Unexpected { expected: "symbol or primitive type", found: toks[c] })
            } else {
                match expect(toks, c1 + 1, Punct::Equal, "expected '=' after type") {
                    Err(e) => Err(e),
                    Ok(c2) => match adv(toks, c2, expr_at(toks, c2)) {
                        Err(e) => Err(e),
                        Ok((v, c3)) => match expect(
                            toks,
                            c3,
                            Punct::Semicolon,
                            "expected ';' after expression",
                        ) {
                            Err(e) => Err(e),
                            Ok(c4) => Ok((StmtV::Let(toks[c], toks[c1], v), c4)),
                        },
                    },
                }
            },
        }
    }
}

/// A while loop, after `while`: a condition in brackets and a block.
pub open spec fn while_at(toks: Seq<Token>, c: int) -> Parsed<StmtV>
    decreases toks.len() - c, 60int,
{
    if !(0 <= c < toks.len()) {
        arbitrary()
    } else {
        match expect(toks, c, Punct::OpenParen, "expected '(' after while") {
            Err(e) => Err(e),
            Ok(c1) => match adv(toks, c1, expr_at(toks, c1)) {
                Err(e) => Err(e),
                Ok((cond, c2)) => match expect(
                    toks,
                    c2,
                    Punct::CloseParen,
                    "expected ')' after expression",
                ) {
                    Err(e) => Err(e),
                    Ok(c3) => match adv(toks, c3, block_at(toks, c3)) {
                        Err(e) => Err(e),
                        Ok((body, c4)) => Ok(
                            (StmtV::While(cond, Box::new(StmtV::Block(body))), c4),
                        ),
                    },
                },
            },
        }
    }
}

/// A block: statements in braces.
pub open spec fn block_at(toks: Seq<Token>, c: int) -> Parsed<Seq<StmtV>>
    decreases toks.len() - c, 40int,
{
    if !(0 <= c < toks.len()) {
        arbitrary()
    } else {
        match expect(toks, c, Punct::OpenCurly, "expected '{' when defining block") {
            Err(e) => Err(e),
            Ok(c1) => close_block(toks, c1, block_more(toks, c1, seq![])),
        }
    }
}

/// The closing brace after the statements `r` of a block that started at `c1`.
pub open spec fn close_block(toks: Seq<Token>, c1: int, r: Parsed<Seq<StmtV>>) -> Parsed<
    Seq<StmtV>,
> {
    match adv0(toks, c1, r) {
        Err(e) => Err(e),
        Ok((stmts, c2)) => match expect(
            toks,
            c2,
            Punct::CloseCurly,
            "expected '}' after defining block",
        ) {
            Err(e) => Err(e),
            Ok(c3) => Ok((stmts, c3)),
        },
    }
}

/// The statements of a block up to its closing brace or the end of the tokens,
/// following those in `acc`.
pub open spec fn block_more(toks: Seq<Token>, c: int, acc: Seq<StmtV>) -> Parsed<Seq<StmtV>>
    decreases toks.len() - c, 70int,
{
    if !(0 <= c < toks.len()) {
        arbitrary()
    } else if toks[c].kind is CloseCurly || toks[c].kind is EOF {
        Ok((acc, c))
    } else {
        match adv(toks, c, stmt_at(toks, c)) {
            Err(e) => Err(e),
            Ok((s, c2)) => block_more(toks, c2, acc.push(s)),
        }
    }
}

/// An if statement, after `if`: a condition in brackets, a block, and optionally `else`
/// with a block or another if statement.
pub open spec fn if_at(toks: Seq<Token>, c: int) -> Parsed<StmtV>
    decreases toks.len() - c, 60int,
{
    if !(0 <= c < toks.len()) {
        arbitrary()
    } else {
        match expect(toks, c, Punct::OpenParen, "expected '(' after if") {
            Err(e) => Err(e),
            Ok(c1) => match adv(toks, c1, expr_at(toks, c1)) {
                Err(e) => Err(e),
                Ok((cond, c2)) => match expect(
                    toks,
                    c2,
                    Punct::CloseParen,
                    "expected ')' after expression",
                ) {
                    Err(e) => Err(e),
                    Ok(c3) => if c < c3 {
                        if_body_at(toks, c3, cond)
                    } else {
                        arbitrary()
                    },
                },
            },
        }
    }
}

/// The branches of an if statement with condition `cond`, after the condition.
pub open spec fn if_body_at(toks: Seq<Token>, c: int, cond: ExprV) -> Parsed<StmtV>
    decreases toks.len() - c, 61int,
{
    if !(0 <= c < toks.len()) {
        arbitrary()
    } else {
        match adv(toks, c, block_at(toks, c)) {
            Err(e) => Err(e),
            Ok((then_body, c4)) => {
                let then_branch = Box::new(StmtV::Block(then_body));
                if toks[c4].kind is Else {
                    let c5 = c4 + 1;
                    if !(c5 < toks.len()) {
                        arbitrary()
                    } else if toks[c5].kind is If {
                        match adv(toks, c5 + 1, if_at(toks, c5 + 1)) {
                            Err(e) => Err(e),
                            Ok((nested, c6)) => Ok(
                                (StmtV::If(cond, then_branch, Some(Box::new(nested))), c6),
                            ),
                        }
                    } else {
                        match adv(toks, c5, block_at(toks, c5)) {
                            Err(e) => Err(e),
                            Ok((else_body, c6)) => Ok(
                                (
                                    StmtV::If(
                                        cond,
                                        then_branch,
                                        Some(Box::new(StmtV::Block(else_body))),
                                    ),
                                    c6,
                                ),
                            ),
                        }
                    }
                } else {
                    Ok((StmtV::If(cond, then_branch, None), c4))
                }
            },
        }
    }
}

/// An expression.
pub open spec fn expr_at(toks: Seq<Token>, c: int) -> Parsed<ExprV>
    decreases toks.len() - c, 45int,
{
    if !(0 <= c < toks.len()) {
        arbitrary()
    } else {
        assignment_at(toks, c)
    }
}

/// An assignment, or an expression of higher precedence. Assignment groups to the right;
/// its target must be a variable.
pub open spec fn assignment_at(toks: Seq<Token>, c: int) -> Parsed<ExprV>
    decreases toks.len() - c, 44int,
{
    if !(0 <= c < toks.len()) {
        arbitrary()
    } else {
        match adv(toks, c, or_at(toks, c)) {
            Err(e) => Err(e),
            Ok((e, c1)) => if toks[c1].kind is Equal {
                match adv(toks, c1 + 1, assignment_at(toks, c1 + 1)) {
                    Err(err) => Err(err),
                    Ok((v, c2)) => if e is Variable {
                        Ok((ExprV::Assignment(Box::new(e), Box::new(v)), c2))
                    } else {
                        Err(
                            ParseError::Invalid {
                                message: "invalid assignment target",
                                at: expr_token(e),
                            },
                        )
                    },
                }
            } else {
                Ok((e, c1))
            },
        }
    }
}

/// A disjunction: conjunctions joined by `||`, grouped to the left.
pub open spec fn or_at(toks: Seq<Token>, c: int) -> Parsed<ExprV>
    decreases toks.len() - c, 43int,
{
    if !(0 <= c < toks.len()) {
        arbitrary()
    } else {
        match adv(toks, c, and_at(toks, c)) {
            Err(e) => Err(e),
            Ok((e, c1)) => or_more(toks, c1, e),
        }
    }
}

/// Further `||` operands after the expression `left`.
pub open spec fn or_more(toks: Seq<Token>, c: int, left: ExprV) -> Parsed<ExprV>
    decreases toks.len() - c, 42int,
{
    if !(0 <= c < toks.len()) {
        arbitrary()
    } else if toks[c].kind is Or {
        match adv(toks, c + 1, and_at(toks, c + 1)) {
            Err(e) => Err(e),
            Ok((right, c2)) => or_more(
                toks,
                c2,
                ExprV::Logical(Box::new(left), toks[c], Box::new(right)),
            ),
        }
    } else {
        Ok((left, c))
    }
}

/// A conjunction: equalities joined by `&&`, grouped to the left.
pub open spec fn and_at(toks: Seq<Token>, c: int) -> Parsed<ExprV>
    decreases toks.len() - c, 41int,
{
    if !(0 <= c < toks.len()) {
        arbitrary()
    } else {
        match adv(toks, c, equality_at(toks, c)) {
            Err(e) => Err(e),
            Ok((e, c1)) => and_more(toks, c1, e),
        }
    }
}

/// Further `&&` operands after the expression `left`.
pub open spec fn and_more(toks: Seq<Token>, c: int, left: ExprV) -> Parsed<ExprV>
    decreases toks.len() - c, 40int,
{
    if !(0 <= c < toks.len()) {
        arbitrary()
    } else if toks[c].kind is And {
        match adv(toks, c + 1, equality_at(toks, c + 1)) {
            Err(e) => Err(e),
            Ok((right, c2)) => and_more(
                toks,
                c2,
                ExprV::Logical(Box::new(left), toks[c], Box::new(right)),
            ),
        }
    } else {
        Ok((left, c))
    }
}

/// An equality: comparisons joined by `==` or `!=`, grouped to the left.
pub open spec fn equality_at(toks: Seq<Token>, c: int) -> Parsed<ExprV>
    decreases toks.len() - c, 39int,
{
    if !(0 <= c < toks.len()) {
        arbitrary()
    } else {
        match adv(toks, c, comparison_at(toks, c)) {
            Err(e) => Err(e),
            Ok((e, c1)) => equality_more(toks, c1, e),
        }
    }
}

/// Whether a token is an equality operator.
pub open spec fn is_equality_op(t: Token) -> bool {
    t.kind is NotEq || t.kind is Equals
}

/// Further equality operands after the expression `left`.
pub open spec fn equality_more(toks: Seq<Token>, c: int, left: ExprV) -> Parsed<ExprV>
    decreases toks.len() - c, 38int,
{
    if !(0 <= c < toks.len()) {
        arbitrary()
    } else if is_equality_op(toks[c]) {
        match adv(toks, c + 1, comparison_at(toks, c + 1)) {
            Err(e) => Err(e),
            Ok((right, c2)) => equality_more(
                toks,
                c2,
                ExprV::Binary(Box::new(left), toks[c], Box::new(right)),
            ),
        }
    } else {
        Ok((left, c))
    }
}

/// A comparison: terms joined by `>`, `>=`, `<` or `<=`, grouped to the left.
pub open spec fn comparison_at(toks: Seq<Token>, c: int) -> Parsed<ExprV>
    decreases toks.len() - c, 37int,
{
    if !(0 <= c < toks.len()) {
        arbitrary()
    } else {
        match adv(toks, c, term_at(toks, c)) {
            Err(e) => Err(e),
            Ok((e, c1)) => comparison_more(toks, c1, e),
        }
    }
}

/// Whether a token is a comparison operator.
pub open spec fn is_comparison_op(t: Token) -> bool {
    t.kind is Greater || t.kind is GreaterEq || t.kind is Less || t.kind is LessEq
}

/// Further comparison operands after the expression `left`.
pub open spec fn comparison_more(toks: Seq<Token>, c: int, left: ExprV) -> Parsed<ExprV>
    decreases toks.len() - c, 36int,
{
    if !(0 <= c < toks.len()) {
        arbitrary()
    } else if is_comparison_op(toks[c]) {
        match adv(toks, c + 1, term_at(toks, c + 1)) {
            Err(e) => Err(e),
            Ok((right, c2)) => comparison_more(
                toks,
                c2,
                ExprV::Binary(Box::new(left), toks[c], Box::new(right)),
            ),
        }
    } else {
        Ok((left, c))
    }
}

/// A term: factors joined by `+` or `-`, grouped to the left.
pub open spec fn term_at(toks: Seq<Token>, c: int) -> Parsed<ExprV>
    decreases toks.len() - c, 35int,
{
    if !(0 <= c < toks.len()) {
        arbitrary()
    } else {
        match adv(toks, c, factor_at(toks, c)) {
            Err(e) => Err(e),
            Ok((e, c1)) => term_more(toks, c1, e),
        }
    }
}

/// Whether a token is an additive operator.
pub open spec fn is_term_op(t: Token) -> bool {
    t.kind is Plus || t.kind is Minus
}

/// Further additive operands after the expression `left`.
pub open spec fn term_more(toks: Seq<Token>, c: int, left: ExprV) -> Parsed<ExprV>
    decreases toks.len() - c, 34int,
{
    if !(0 <= c < toks.len()) {
        arbitrary()
    } else if is_term_op(toks[c]) {
        match adv(toks, c + 1, factor_at(toks, c + 1)) {
            Err(e) => Err(e),
            Ok((right, c2)) => term_more(
                toks,
                c2,
                ExprV::Binary(Box::new(left), toks[c], Box::new(right)),
            ),
        }
    } else {
        Ok((left, c))
    }
}

/// A factor: unary expressions joined by `%`, `*` or `/`, grouped to the left.
pub open spec fn factor_at(toks: Seq<Token>, c: int) -> Parsed<ExprV>
    decreases toks.len() - c, 33int,
{
    if !(0 <= c < toks.len()) {
        arbitrary()
    } else {
        match adv(toks, c, unary_at(toks, c)) {
            Err(e) => Err(e),
            Ok((e, c1)) => factor_more(toks, c1, e),
        }
    }
}

/// Whether a token is a multiplicative operator.
pub open spec fn is_factor_op(t: Token) -> bool {
    t.kind is Modulo || t.kind is Mul || t.kind is Div
}

/// Further multiplicative operands after the expression `left`.
pub open spec fn factor_more(toks: Seq<Token>, c: int, left: ExprV) -> Parsed<ExprV>
    decreases toks.len() - c, 32int,
{
    if !(0 <= c < toks.len()) {
        arbitrary()
    } else if is_factor_op(toks[c]) {
        match adv(toks, c + 1, unary_at(toks, c + 1)) {
            Err(e) => Err(e),
            Ok((right, c2)) => factor_more(
                toks,
                c2,
                ExprV::Binary(Box::new(left), toks[c], Box::new(right)),
            ),
        }
    } else {
        Ok((left, c))
    }
}

/// A unary expression: `!` or `-` before a unary expression, or a call.
pub open spec fn unary_at(toks: Seq<Token>, c: int) -> Parsed<ExprV>
    decreases toks.len() - c, 31int,
{
    if !(0 <= c < toks.len()) {
        arbitrary()
    } else if toks[c].kind is Not || toks[c].kind is Minus {
        match adv(toks, c + 1, unary_at(toks, c + 1)) {
            Err(e) => Err(e),
            Ok((right, c2)) => Ok((ExprV::Unary(toks[c], Box::new(right)), c2)),
        }
    } else {
        call_at(toks, c)
    }
}

/// A primary expression, followed by an argument list where it is a variable followed by
/// an opening bracket. An opening bracket after anything else is reported at the token
/// before it.
pub open spec fn call_at(toks: Seq<Token>, c: int) -> Parsed<ExprV>
    decreases toks.len() - c, 30int,
{
    if !(0 <= c < toks.len()) {
        arbitrary()
    } else {
        match adv(toks, c, primary_at(toks, c)) {
            Err(e) => Err(e),
            Ok((e, c1)) => if toks[c1].kind is OpenParen {
                if e is Variable {
                    call_args_at(toks, c1 + 1, e)
                } else {
                    Err(ParseError::Unexpected { expected: "symbol", found: toks[c1 - 1] })
                }
            } else {
                Ok((e, c1))
            },
        }
    }
}

/// The arguments of a call of `callee` and the closing bracket, after the opening one.
pub open spec fn call_args_at(toks: Seq<Token>, c: int, callee: ExprV) -> Parsed<ExprV>
    decreases toks.len() - c, 48int,
{
    if !(0 <= c < toks.len()) {
        arbitrary()
    } else {
        close_call(toks, callee, args_list_at(toks, c))
    }
}

/// The arguments of a call, separated by commas, up to the closing bracket.
pub open spec fn args_list_at(toks: Seq<Token>, c: int) -> Parsed<Seq<ExprV>>
    decreases toks.len() - c, 46int,
{
    if !(0 <= c < toks.len()) {
        arbitrary()
    } else if toks[c].kind is CloseParen {
        Ok((seq![], c))
    } else {
        match adv(toks, c, expr_at(toks, c)) {
            Err(e) => Err(e),
            Ok((a, c1)) => args_more(toks, c1, seq![a]),
        }
    }
}

/// The closing bracket after the arguments `r` of a call of `callee`.
pub open spec fn close_call(toks: Seq<Token>, callee: ExprV, r: Parsed<Seq<ExprV>>) -> Parsed<
    ExprV,
> {
    match r {
        Err(e) => Err(e),
        Ok((xs, c2)) => match expect(
            toks,
            c2,
            Punct::CloseParen,
            "expected ')' after function call",
        ) {
            Err(e) => Err(e),
            Ok(c3) => Ok((ExprV::FuncCall(Box::new(callee), xs), c3)),
        },
    }
}

/// Further arguments, each after a comma, following those in `acc`; a comma after 255
/// arguments is refused.
pub open spec fn args_more(toks: Seq<Token>, c: int, acc: Seq<ExprV>) -> Parsed<Seq<ExprV>>
    decreases toks.len() - c, 47int,
{
    if !(0 <= c < toks.len()) {
        arbitrary()
    } else if toks[c].kind is Comma {
        if acc.len() >= 255 {
            Err(
                ParseError::Invalid {
                    message: "cannot have more than 255 arguments on function call",
                    at: toks[c],
                },
            )
        } else {
            match adv(toks, c + 1, expr_at(toks, c + 1)) {
                Err(e) => Err(e),
                Ok((a, c2)) => args_more(toks, c2, acc.push(a)),
            }
        }
    } else {
        Ok((acc, c))
    }
}

/// Whether a token is a literal.
pub open spec fn is_literal(t: Token) -> bool {
    t.kind is False || t.kind is True || t.kind is Str || t.kind is Number || t.kind is Char
}

/// A primary expression: a literal, a variable, or an expression in brackets.
pub open spec fn primary_at(toks: Seq<Token>, c: int) -> Parsed<ExprV>
    decreases toks.len() - c, 20int,
{
    if !(0 <= c < toks.len()) {
        arbitrary()
    } else if is_literal(toks[c]) {
        Ok((ExprV::Literal(toks[c]), c + 1))
    } else if toks[c].kind is Symbol {
        Ok((ExprV::Variable(toks[c]), c + 1))
    } else if toks[c].kind is OpenParen {
        match adv(toks, c + 1, expr_at(toks, c + 1)) {
            Err(e) => Err(e),
            Ok((e, c1)) => match expect(
                toks,
                c1,
                Punct::CloseParen,
                "expected ')' after expression grouping",
            ) {
                Err(err) => Err(err),
                Ok(c2) => Ok((ExprV::Grouping(Box::new(e)), c2)),
            },
        }
    } else {
        Err(ParseError::Unexpected { expected: "expression", found: toks[c] })
    }
}

/// Whether a token ends an expression: it continues none of its forms.
pub open spec fn ends_expression(t: Token) -> bool {
    t.kind is Semicolon || t.kind is CloseParen || t.kind is Comma
}

/// A literal that nothing continues at its own precedence is a factor of its own.
proof fn lemma_literal_factor(toks: Seq<Token>, c: int)
    requires
        0 <= c,
        c + 1 < toks.len(),
        is_literal(toks[c]),
        !(toks[c + 1].kind is OpenParen),
        !is_factor_op(toks[c + 1]),
    ensures
        factor_at(toks, c) == Ok::<(ExprV, int), ParseError>((ExprV::Literal(toks[c]), c + 1)),
{
    assert(primary_at(toks, c) == Ok::<(ExprV, int), ParseError>((ExprV::Literal(toks[c]), c + 1)));
    assert(call_at(toks, c) == Ok::<(ExprV, int), ParseError>((ExprV::Literal(toks[c]), c + 1)));
    assert(unary_at(toks, c) == Ok::<(ExprV, int), ParseError>((ExprV::Literal(toks[c]), c + 1)));
    assert(factor_more(toks, c + 1, ExprV::Literal(toks[c])) == Ok::<(ExprV, int), ParseError>(
        (ExprV::Literal(toks[c]), c + 1),
    ));
}

/// A literal followed by something other than an operator of its own level or tighter
/// is a term of its own.
proof fn lemma_literal_term(toks: Seq<Token>, c: int)
    requires
        0 <= c,
        c + 1 < toks.len(),
        is_literal(toks[c]),
        !(toks[c + 1].kind is OpenParen),
        !is_factor_op(toks[c + 1]),
        !is_term_op(toks[c + 1]),
    ensures
        term_at(toks, c) == Ok::<(ExprV, int), ParseError>((ExprV::Literal(toks[c]), c + 1)),
{
    lemma_literal_factor(toks, c);
    assert(term_more(toks, c + 1, ExprV::Literal(toks[c])) == Ok::<(ExprV, int), ParseError>(
        (ExprV::Literal(toks[c]), c + 1),
    ));
}

/// A comparison that an expression's end follows is the whole expression.
proof fn lemma_comparison_is_expression(toks: Seq<Token>, c: int, e: ExprV, k: int)
    requires
        0 <= c < k < toks.len(),
        comparison_at(toks, c) == Ok::<(ExprV, int), ParseError>((e, k)),
        ends_expression(toks[k]),
    ensures
        expr_at(toks, c) == Ok::<(ExprV, int), ParseError>((e, k)),
{
    assert(equality_more(toks, k, e) == Ok::<(ExprV, int), ParseError>((e, k)));
    assert(equality_at(toks, c) == Ok::<(ExprV, int), ParseError>((e, k)));
    assert(and_more(toks, k, e) == Ok::<(ExprV, int), ParseError>((e, k)));
    assert(and_at(toks, c) == Ok::<(ExprV, int), ParseError>((e, k)));
    assert(or_more(toks, k, e) == Ok::<(ExprV, int), ParseError>((e, k)));
    assert(or_at(toks, c) == Ok::<(ExprV, int), ParseError>((e, k)));
    assert(assignment_at(toks, c) == Ok::<(ExprV, int), ParseError>((e, k)));
}

/// A term that an expression's end follows is the whole expression.
proof fn lemma_term_is_expression(toks: Seq<Token>, c: int, e: ExprV, k: int)
    requires
        0 <= c < k < toks.len(),
        term_at(toks, c) == Ok::<(ExprV, int), ParseError>((e, k)),
        ends_expression(toks[k]),
    ensures
        expr_at(toks, c) == Ok::<(ExprV, int), ParseError>((e, k)),
{
    assert(comparison_more(toks, k, e) == Ok::<(ExprV, int), ParseError>((e, k)));
    assert(comparison_at(toks, c) == Ok::<(ExprV, int), ParseError>((e, k)));
    lemma_comparison_is_expression(toks, c, e, k);
}

/// The tokens of `x ρ y σ z`, for literals `x`, `y`, `z` followed by the end of the
/// expression, with `ρ` and `σ` the operators at `c + 1` and `c + 3`.
pub open spec fn three_literals(toks: Seq<Token>, c: int) -> bool {
    &&& 0 <= c
    &&& c + 5 < toks.len()
    &&& is_literal(toks[c])
    &&& is_literal(toks[c + 2])
    &&& is_literal(toks[c + 4])
    &&& ends_expression(toks[c + 5])
}

/// `x ρ (y σ z)`: the tree in which the second operator applies first.
pub open spec fn grouped_right(toks: Seq<Token>, c: int) -> ExprV {
    ExprV::Binary(
        Box::new(ExprV::Literal(toks[c])),
        toks[c + 1],
        Box::new(
            ExprV::Binary(
                Box::new(ExprV::Literal(toks[c + 2])),
                toks[c + 3],
                Box::new(ExprV::Literal(toks[c + 4])),
            ),
        ),
    )
}

/// `(x ρ y) σ z`: the tree in which the first operator applies first.
pub open spec fn grouped_left(toks: Seq<Token>, c: int) -> ExprV {
    ExprV::Binary(
        Box::new(
            ExprV::Binary(
                Box::new(ExprV::Literal(toks[c])),
                toks[c + 1],
                Box::new(ExprV::Literal(toks[c + 2])),
            ),
        ),
        toks[c + 3],
        Box::new(ExprV::Literal(toks[c + 4])),
    )
}

/// Addition and subtraction bind tighter than comparisons: `x < y + z` (with any of
/// `<`, `<=`, `>`, `>=` and either of `+`, `-`) reads as `x < (y + z)`.
pub proof fn lemma_term_binds_tighter_than_comparison(toks: Seq<Token>, c: int)
    requires
        three_literals(toks, c),
        is_comparison_op(toks[c + 1]),
        is_term_op(toks[c + 3]),
    ensures
        expr_at(toks, c) == Ok::<(ExprV, int), ParseError>((grouped_right(toks, c), c + 5)),
{
    let x = ExprV::Literal(toks[c]);
    let y = ExprV::Literal(toks[c + 2]);
    let z = ExprV::Literal(toks[c + 4]);
    let yz = ExprV::Binary(Box::new(y), toks[c + 3], Box::new(z));
    lemma_literal_term(toks, c);
    lemma_literal_factor(toks, c + 2);
    lemma_literal_factor(toks, c + 4);
    assert(term_more(toks, c + 5, yz) == Ok::<(ExprV, int), ParseError>((yz, c + 5)));
    assert(term_more(toks, c + 3, y) == Ok::<(ExprV, int), ParseError>((yz, c + 5)));
    assert(term_at(toks, c + 2) == Ok::<(ExprV, int), ParseError>((yz, c + 5)));
    let e = grouped_right(toks, c);
    assert(comparison_more(toks, c + 5, e) == Ok::<(ExprV, int), ParseError>((e, c + 5)));
    assert(comparison_more(toks, c + 1, x) == Ok::<(ExprV, int), ParseError>((e, c + 5)));
    assert(comparison_at(toks, c) == Ok::<(ExprV, int), ParseError>((e, c + 5)));
    lemma_comparison_is_expression(toks, c, e, c + 5);
}

/// The same the other way round: `x + y < z` reads as `(x + y) < z`.
pub proof fn lemma_term_before_comparison(toks: Seq<Token>, c: int)
    requires
        three_literals(toks, c),
        is_term_op(toks[c + 1]),
        is_comparison_op(toks[c + 3]),
    ensures
        expr_at(toks, c) == Ok::<(ExprV, int), ParseError>((grouped_left(toks, c), c + 5)),
{
    let x = ExprV::Literal(toks[c]);
    let y = ExprV::Literal(toks[c + 2]);
    let z = ExprV::Literal(toks[c + 4]);
    let xy = ExprV::Binary(Box::new(x), toks[c + 1], Box::new(y));
    lemma_literal_factor(toks, c);
    lemma_literal_factor(toks, c + 2);
    lemma_literal_term(toks, c + 4);
    assert(term_more(toks, c + 3, xy) == Ok::<(ExprV, int), ParseError>((xy, c + 3)));
    assert(term_more(toks, c + 1, x) == Ok::<(ExprV, int), ParseError>((xy, c + 3)));
    assert(term_at(toks, c) == Ok::<(ExprV, int), ParseError>((xy, c + 3)));
    let e = grouped_left(toks, c);
    assert(comparison_more(toks, c + 5, e) == Ok::<(ExprV, int), ParseError>((e, c + 5)));
    assert(comparison_more(toks, c + 3, xy) == Ok::<(ExprV, int), ParseError>((e, c + 5)));
    assert(comparison_at(toks, c) == Ok::<(ExprV, int), ParseError>((e, c + 5)));
    lemma_comparison_is_expression(toks, c, e, c + 5);
}

/// Multiplication, division and remainder bind tighter than addition and subtraction:
/// `x + y * z` reads as `x + (y * z)`.
pub proof fn lemma_factor_binds_tighter_than_term(toks: Seq<Token>, c: int)
    requires
        three_literals(toks, c),
        is_term_op(toks[c + 1]),
        is_factor_op(toks[c + 3]),
    ensures
        expr_at(toks, c) == Ok::<(ExprV, int), ParseError>((grouped_right(toks, c), c + 5)),
{
    let x = ExprV::Literal(toks[c]);
    let y = ExprV::Literal(toks[c + 2]);
    let z = ExprV::Literal(toks[c + 4]);
    let yz = ExprV::Binary(Box::new(y), toks[c + 3], Box::new(z));
    lemma_literal_factor(toks, c);
    assert(primary_at(toks, c + 2) == Ok::<(ExprV, int), ParseError>((y, c + 3)));
    assert(call_at(toks, c + 2) == Ok::<(ExprV, int), ParseError>((y, c + 3)));
    assert(unary_at(toks, c + 2) == Ok::<(ExprV, int), ParseError>((y, c + 3)));
    assert(primary_at(toks, c + 4) == Ok::<(ExprV, int), ParseError>((z, c + 5)));
    assert(call_at(toks, c + 4) == Ok::<(ExprV, int), ParseError>((z, c + 5)));
    assert(unary_at(toks, c + 4) == Ok::<(ExprV, int), ParseError>((z, c + 5)));
    assert(factor_more(toks, c + 5, yz) == Ok::<(ExprV, int), ParseError>((yz, c + 5)));
    assert(factor_more(toks, c + 3, y) == Ok::<(ExprV, int), ParseError>((yz, c + 5)));
    assert(factor_at(toks, c + 2) == Ok::<(ExprV, int), ParseError>((yz, c + 5)));
    let e = grouped_right(toks, c);
    assert(term_more(toks, c + 5, e) == Ok::<(ExprV, int), ParseError>((e, c + 5)));
    assert(term_more(toks, c + 1, x) == Ok::<(ExprV, int), ParseError>((e, c + 5)));
    assert(term_at(toks, c) == Ok::<(ExprV, int), ParseError>((e, c + 5)));
    lemma_term_is_expression(toks, c, e, c + 5);
}

/// Addition and subtraction group to the left: `x - y + z` reads as `(x - y) + z`.
pub proof fn lemma_terms_group_left(toks: Seq<Token>, c: int)
    requires
        three_literals(toks, c),
        is_term_op(toks[c + 1]),
        is_term_op(toks[c + 3]),
    ensures
        expr_at(toks, c) == Ok::<(ExprV, int), ParseError>((grouped_left(toks, c), c + 5)),
{
    let x = ExprV::Literal(toks[c]);
    let y = ExprV::Literal(toks[c + 2]);
    let xy = ExprV::Binary(Box::new(x), toks[c + 1], Box::new(y));
    lemma_literal_factor(toks, c);
    lemma_literal_factor(toks, c + 2);
    lemma_literal_factor(toks, c + 4);
    let e = grouped_left(toks, c);
    assert(term_more(toks, c + 5, e) == Ok::<(ExprV, int), ParseError>((e, c + 5)));
    assert(term_more(toks, c + 3, xy) == Ok::<(ExprV, int), ParseError>((e, c + 5)));
    assert(term_more(toks, c + 1, x) == Ok::<(ExprV, int), ParseError>((e, c + 5)));
    assert(term_at(toks, c) == Ok::<(ExprV, int), ParseError>((e, c + 5)));
    lemma_term_is_expression(toks, c, e, c + 5);
}

/// Comparisons bind tighter than `==` and `!=`: `x == y < z` reads as `x == (y < z)`.
pub proof fn lemma_comparison_binds_tighter_than_equality(toks: Seq<Token>, c: int)
    requires
        three_literals(toks, c),
        is_equality_op(toks[c + 1]),
        is_comparison_op(toks[c + 3]),
    ensures
        expr_at(toks, c) == Ok::<(ExprV, int), ParseError>((grouped_right(toks, c), c + 5)),
{
    let x = ExprV::Literal(toks[c]);
    let y = ExprV::Literal(toks[c + 2]);
    let z = ExprV::Literal(toks[c + 4]);
    let yz = ExprV::Binary(Box::new(y), toks[c + 3], Box::new(z));
    lemma_literal_term(toks, c);
    lemma_literal_term(toks, c + 2);
    lemma_literal_term(toks, c + 4);
    assert(comparison_more(toks, c + 1, x) == Ok::<(ExprV, int), ParseError>((x, c + 1)));
    assert(comparison_at(toks, c) == Ok::<(ExprV, int), ParseError>((x, c + 1)));
    assert(comparison_more(toks, c + 5, yz) == Ok::<(ExprV, int), ParseError>((yz, c + 5)));
    assert(comparison_more(toks, c + 3, y) == Ok::<(ExprV, int), ParseError>((yz, c + 5)));
    assert(comparison_at(toks, c + 2) == Ok::<(ExprV, int), ParseError>((yz, c + 5)));
    let e = grouped_right(toks, c);
    assert(equality_more(toks, c + 5, e) == Ok::<(ExprV, int), ParseError>((e, c + 5)));
    assert(equality_more(toks, c + 1, x) == Ok::<(ExprV, int), ParseError>((e, c + 5)));
    assert(equality_at(toks, c) == Ok::<(ExprV, int), ParseError>((e, c + 5)));
    assert(and_more(toks, c + 5, e) == Ok::<(ExprV, int), ParseError>((e, c + 5)));
    assert(and_at(toks, c) == Ok::<(ExprV, int), ParseError>((e, c + 5)));
    assert(or_more(toks, c + 5, e) == Ok::<(ExprV, int), ParseError>((e, c + 5)));
    assert(or_at(toks, c) == Ok::<(ExprV, int), ParseError>((e, c + 5)));
    assert(assignment_at(toks, c) == Ok::<(ExprV, int), ParseError>((e, c + 5)));
}

/// A literal that an expression's end follows is the whole expression.
proof fn lemma_literal_expression(toks: Seq<Token>, c: int)
    requires
        0 <= c,
        c + 1 < toks.len(),
        is_literal(toks[c]),
        ends_expression(toks[c + 1]),
    ensures
        expr_at(toks, c) == Ok::<(ExprV, int), ParseError>((ExprV::Literal(toks[c]), c + 1)),
{
    lemma_literal_term(toks, c);
    lemma_term_is_expression(toks, c, ExprV::Literal(toks[c]), c + 1);
}

/// An empty block `{ }` at `c`.
proof fn lemma_empty_block(toks: Seq<Token>, c: int)
    requires
        0 <= c,
        c + 2 < toks.len(),
        toks[c].kind is OpenCurly,
        toks[c + 1].kind is CloseCurly,
    ensures
        block_at(toks, c) == Ok::<(Seq<StmtV>, int), ParseError>((Seq::<StmtV>::empty(), c + 2)),
{
    assert(block_more(toks, c + 1, seq![]) == Ok::<(Seq<StmtV>, int), ParseError>((seq![], c + 1)));
}

/// Print statements: `print x;` and `println x;` read as a print of `x`, with a line break
/// for `println` alone.
pub proof fn lemma_print_statement(toks: Seq<Token>, c: int)
    requires
        0 <= c,
        c + 2 < toks.len(),
        toks[c].kind is Print || toks[c].kind is Println,
        is_literal(toks[c + 1]),
        toks[c + 2].kind is Semicolon,
    ensures
        stmt_at(toks, c) == Ok::<(StmtV, int), ParseError>(
            (StmtV::Print(ExprV::Literal(toks[c + 1]), toks[c].kind is Println), c + 3),
        ),
{
    lemma_literal_expression(toks, c + 1);
}

/// Return statements: `return;` returns nothing and `return x;` returns `x`.
pub proof fn lemma_return_statement(toks: Seq<Token>, c: int)
    requires
        0 <= c,
        c + 1 < toks.len(),
        toks[c].kind is Return,
    ensures
        toks[c + 1].kind is Semicolon ==> stmt_at(toks, c) == Ok::<(StmtV, int), ParseError>(
            (StmtV::Return(toks[c], None), c + 2),
        ),
        c + 2 < toks.len() && is_literal(toks[c + 1]) && toks[c + 2].kind is Semicolon ==> stmt_at(
            toks,
            c,
        ) == Ok::<(StmtV, int), ParseError>(
            (StmtV::Return(toks[c], Some(ExprV::Literal(toks[c + 1]))), c + 3),
        ),
{
    if c + 2 < toks.len() && is_literal(toks[c + 1]) && toks[c + 2].kind is Semicolon {
        lemma_literal_expression(toks, c + 1);
    }
}

/// Variable definitions: `let x: T = v;` defines `x` of type `T` as `v`.
pub proof fn lemma_let_statement(toks: Seq<Token>, c: int)
    requires
        0 <= c,
        c + 6 < toks.len(),
        toks[c].kind is Let,
        is_symbol(toks[c + 1]),
        toks[c + 2].kind is Colon,
        is_type_name(toks[c + 3]),
        toks[c + 4].kind is Equal,
        is_literal(toks[c + 5]),
        toks[c + 6].kind is Semicolon,
    ensures
        stmt_at(toks, c) == Ok::<(StmtV, int), ParseError>(
            (StmtV::Let(toks[c + 1], toks[c + 3], ExprV::Literal(toks[c + 5])), c + 7),
        ),
{
    lemma_literal_expression(toks, c + 5);
}

/// Function definitions keep their parameters in order: `fn f(a: T, b: U) R { }` defines
/// `f` with the parameters `a: T` then `b: U`, the return type `R` and an empty body.
pub proof fn lemma_fn_statement(toks: Seq<Token>, c: int)
    requires
        0 <= c,
        c + 14 < toks.len(),
        toks[c].kind is Func,
        is_symbol(toks[c + 1]),
        toks[c + 2].kind is OpenParen,
        is_symbol(toks[c + 3]),
        toks[c + 4].kind is Colon,
        is_type_name(toks[c + 5]),
        toks[c + 6].kind is Comma,
        is_symbol(toks[c + 7]),
        toks[c + 8].kind is Colon,
        is_type_name(toks[c + 9]),
        toks[c + 10].kind is CloseParen,
        is_type_name(toks[c + 11]),
        toks[c + 12].kind is OpenCurly,
        toks[c + 13].kind is CloseCurly,
    ensures
        stmt_at(toks, c) == Ok::<(StmtV, int), ParseError>(
            (
                StmtV::Func(
                    toks[c + 1],
                    seq![(toks[c + 3], toks[c + 5]), (toks[c + 7], toks[c + 9])],
                    toks[c + 11],
                    Box::new(StmtV::Block(Seq::<StmtV>::empty())),
                ),
                c + 14,
            ),
        ),
{
    let p = (toks[c + 3], toks[c + 5]);
    let q = (toks[c + 7], toks[c + 9]);
    assert(param_at(toks, c + 3) == Ok::<((Token, Token), int), ParseError>((p, c + 6)));
    assert(param_at(toks, c + 7) == Ok::<((Token, Token), int), ParseError>((q, c + 10)));
    assert(params_more(toks, c + 10, seq![p, q]) == Ok::<(Seq<(Token, Token)>, int), ParseError>(
        (seq![p, q], c + 10),
    ));
    assert(seq![p].push(q) == seq![p, q]);
    assert(params_more(toks, c + 6, seq![p]) == Ok::<(Seq<(Token, Token)>, int), ParseError>(
        (seq![p, q], c + 10),
    ));
    assert(param_list_at(toks, c + 3) == Ok::<(Seq<(Token, Token)>, int), ParseError>(
        (seq![p, q], c + 10),
    ));
    lemma_empty_block(toks, c + 12);
}

/// `if (x) { } else { }` reads as an `if` on `x` with both branches, and `while (x) { }`
/// as a loop on `x`.
pub proof fn lemma_if_and_while_statements(toks: Seq<Token>, c: int)
    requires
        0 <= c,
        c + 6 < toks.len(),
        toks[c + 1].kind is OpenParen,
        is_literal(toks[c + 2]),
        toks[c + 3].kind is CloseParen,
        toks[c + 4].kind is OpenCurly,
        toks[c + 5].kind is CloseCurly,
    ensures
        toks[c].kind is While ==> stmt_at(toks, c) == Ok::<(StmtV, int), ParseError>(
            (
                StmtV::While(
                    ExprV::Literal(toks[c + 2]),
                    Box::new(StmtV::Block(Seq::<StmtV>::empty())),
                ),
                c + 6,
            ),
        ),
        toks[c].kind is If && c + 9 < toks.len() && toks[c + 6].kind is Else && toks[c
            + 7].kind is OpenCurly && toks[c + 8].kind is CloseCurly ==> stmt_at(toks, c) == Ok::<
            (StmtV, int),
            ParseError,
        >(
            (
                StmtV::If(
                    ExprV::Literal(toks[c + 2]),
                    Box::new(StmtV::Block(Seq::<StmtV>::empty())),
                    Some(Box::new(StmtV::Block(Seq::<StmtV>::empty()))),
                ),
                c + 9,
            ),
        ),
{
    lemma_literal_expression(toks, c + 2);
    lemma_empty_block(toks, c + 4);
    if c + 9 < toks.len() && toks[c + 7].kind is OpenCurly && toks[c + 8].kind is CloseCurly {
        lemma_empty_block(toks, c + 7);
    }
}

} // verus!
