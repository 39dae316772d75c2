//! The parser: turns tokens into statements, by recursive descent.
use vstd::prelude::*;

use crate::ast::{
    exprs_view, lemma_expr_view, lemma_stmt_view, stmts_view, Expr, ExprV, Stmt, StmtV,
};
use crate::grammar::{
    adv0, and_at, and_more, args_list_at, args_more, assignment_at, block_at, block_more,
    call_args_at, call_at, close_block, comparison_at, comparison_more, equality_at,
    equality_more, expect, expr_at, factor_at, factor_more, fn_at, if_at, if_body_at, let_at,
    or_at, or_more, param_at, param_list_at, params_more, primary_at, print_at, program_at,
    return_at, stmt_at, term_at, term_more, unary_at, well_formed, while_at, ParseError, Parsed,
    Punct,
};
use crate::token::{Token, TokenKind};

verus! {

/// Whether `r`, with the parser left at `c`, is what the grammar gives: the same item
/// ending at `c`, or the same error.
pub open spec fn parsed_as<T: View>(r: Result<T, ParseError>, c: int, p: Parsed<T::V>) -> bool {
    match r {
        Ok(x) => p == Ok::<(T::V, int), ParseError>((x@, c)),
        Err(e) => p == Err::<(T::V, int), ParseError>(e),
    }
}

/// Whether the statements `r`, with the parser left at `c`, are what the grammar gives.
pub open spec fn parsed_block(r: Result<Vec<Stmt>, ParseError>, c: int, p: Parsed<Seq<StmtV>>) -> bool {
    match r {
        Ok(v) => p == Ok::<(Seq<StmtV>, int), ParseError>((stmts_view(v@), c)),
        Err(e) => p == Err::<(Seq<StmtV>, int), ParseError>(e),
    }
}

/// `done` followed by what `rest` holds, or the error of `rest`.
pub open spec fn prepend_stmts(done: Seq<StmtV>, rest: Result<Seq<StmtV>, ParseError>) -> Result<
    Seq<StmtV>,
    ParseError,
> {
    match rest {
        Ok(s) => Ok(done + s),
        Err(e) => Err(e),
    }
}

/// The parser's state: the tokens and the position of the next one.
pub struct Parser {
    tokens: Vec<Token>,
    cursor: usize,
}

impl Parser {
    /// The tokens being parsed.
    pub closed spec fn toks(&self) -> Seq<Token> {
        self.tokens@
    }

    /// The position of the next token.
    pub closed spec fn pos(&self) -> int {
        self.cursor as int
    }

    /// Whether the parser can go on: the tokens end with an end-of-file token and the
    /// position is that of a token.
    pub closed spec fn ready(&self) -> bool {
        well_formed(self.tokens@) && self.cursor < self.tokens@.len() && self.tokens@.len()
            <= usize::MAX
    }

    /// A parser at the start of `tokens`. It keeps the tokens up to and including the
    /// first end-of-file token, since none after it is ever read.
    pub fn new(tokens: Vec<Token>) -> (r: Self)
        ensures
            r.toks() == through_first_eof(tokens@),
            r.pos() == 0,
            has_eof(tokens@) ==> r.ready(),
    {
        let mut toks = tokens;
        let mut i: usize = 0;
        while i < toks.len()
            invariant
                i <= toks@.len(),
                toks@ == tokens@,
                forall|j: int| 0 <= j < i ==> !((#[trigger] toks@[j]).kind is EOF),
            decreases toks.len() - i,
        {
            if matches!(toks[i].kind, TokenKind::EOF) {
                proof {
                    lemma_through_first_eof(toks@, i as int);
                }
                toks.truncate(i + 1);
                return Parser { tokens: toks, cursor: 0 };
            }
            i = i + 1;
        }
        proof {
            lemma_no_eof_kept(toks@);
        }
        Parser { tokens: toks, cursor: 0 }
    }

    /// The statements of the program, up to the end-of-file token, or the first error.
    pub fn parse(&mut self) -> (r: Result<Vec<Stmt>, ParseError>)
        requires
            old(self).ready(),
        ensures
            final(self).toks() == old(self).toks(),
            match (r, program_at(old(self).toks(), old(self).pos())) {
                (Ok(v), Ok(s)) => stmts_view(v@) == s,
                (Err(e), Err(f)) => e == f,
                _ => false,
            },
    {
        let ghost toks = self.tokens@;
        let ghost c0 = self.cursor as int;
        let mut stmts: Vec<Stmt> = Vec::new();
        while !self.is_at_end()
            invariant
                self.ready(),
                self.tokens@ == toks,
                toks == old(self).tokens@,
                c0 == old(self).cursor,
                program_at(toks, c0) == prepend_stmts(
                    stmts_view(stmts@),
                    program_at(toks, self.cursor as int),
                ),
            decreases toks.len() - self.cursor,
        {
            let ghost c = self.cursor as int;
            let ghost before = stmts_view(stmts@);
            let s = match self.statement() {
                Ok(s) => s,
                Err(e) => {
                    return Err(e);
                },
            };
            stmts.push(s);
            proof {
                assert(stmts_view(stmts@) =~= before.push(s@));
                let rest = program_at(toks, self.cursor as int);
                match rest {
                    Ok(r) => {
                        assert(before + (seq![s@] + r) =~= before.push(s@) + r);
                    },
                    Err(_) => {},
                }
            }
        }
        Ok(stmts)
    }

    fn statement(&mut self) -> (r: Result<Stmt, ParseError>)
        requires
            old(self).ready(),
        ensures
            final(self).toks() == old(self).toks(),
            parsed_as(r, final(self).pos(), stmt_at(old(self).toks(), old(self).pos())),
            r is Ok ==> old(self).pos() < final(self).pos() && final(self).ready(),
        decreases old(self).tokens@.len() - old(self).cursor, 50int,
    {
        if matches!(self.current().kind, TokenKind::Func) {
            self.advance();
            return self.fn_stmt();
        }
        if matches!(self.current().kind, TokenKind::Print | TokenKind::Println) {
            let mut newline = false;
            if matches!(self.current().kind, TokenKind::Println) {
                newline = true;
            }
            self.advance();
            return self.print_stmt(newline);
        }
        if matches!(self.current().kind, TokenKind::Return) {
            let token = self.consume();
            return self.return_stmt(token);
        }
        if matches!(self.current().kind, TokenKind::Let) {
            self.advance();
            return self.let_stmt();
        }
        if matches!(self.current().kind, TokenKind::While) {
            self.advance();
            return self.while_stmt();
        }
        if matches!(self.current().kind, TokenKind::If) {
            self.advance();
            return self.if_stmt();
        }
        if matches!(self.current().kind, TokenKind::Break) {
            let token = self.consume();
            self.consume_expected(Punct::Semicolon, "expected ';' after break")?;
            let built = Stmt::Break(token);
            proof {
                lemma_stmt_view(built);
            }
            return Ok(built);
        }
        if matches!(self.current().kind, TokenKind::Continue) {
            let token = self.consume();
            self.consume_expected(Punct::Semicolon, "expected ';' after continue")?;
            let built = Stmt::Continue(token);
            proof {
                lemma_stmt_view(built);
            }
            return Ok(built);
        }
        if matches!(self.current().kind, TokenKind::OpenCurly) {
            let stmts = self.block()?;
            let built = Stmt::Block(stmts);
            proof {
                lemma_stmt_view(built);
            }
            return Ok(built);
        }
        let e = self.expression()?;
        self.consume_expected(Punct::Semicolon, "expected ';' after expression")?;
        let built = Stmt::Expression(e);
        proof {
            lemma_stmt_view(built);
        }
        Ok(built)
    }

    fn fn_stmt(&mut self) -> (r: Result<Stmt, ParseError>)
        requires
            old(self).ready(),
        ensures
            final(self).toks() == old(self).toks(),
            parsed_as(r, final(self).pos(), fn_at(old(self).toks(), old(self).pos())),
            r is Ok ==> old(self).pos() < final(self).pos() && final(self).ready(),
        decreases old(self).tokens@.len() - old(self).cursor, 60int,
    {
        let ghost toks = self.tokens@;
        let name = self.consume();
        if !matches!(name.kind, TokenKind::Symbol(_)) {
            return Err(ParseError::Unexpected { expected: "symbol", found: name });
        }
        self.consume_expected(Punct::OpenParen, "expected '('")?;
        let ghost c1 = self.cursor as int;
        let params = self.param_list()?;
        self.consume_expected(Punct::CloseParen, "expected ')' after parameter list")?;
        let ret_type = self.consume();
        if !matches!(ret_type.kind, TokenKind::Symbol(_) | TokenKind::PrimitiveType(_)) {
            return Err(
                ParseError::Unexpected { expected: "symbol or primitive type", found: ret_type },
            );
        }
        let body = self.block()?;
        let b = Stmt::Block(body);
        proof {
            lemma_stmt_view(b);
        }
        let r = Stmt::Func(name, params, ret_type, Box::new(b));
        proof {
            lemma_stmt_view(r);
        }
        Ok(r)
    }

    /// The parameters of a function definition, up to its closing bracket.
    fn param_list(&mut self) -> (r: Result<Vec<(Token, Token)>, ParseError>)
        requires
            old(self).ready(),
        ensures
            final(self).toks() == old(self).toks(),
            match r {
                Ok(v) => param_list_at(old(self).toks(), old(self).pos()) == Ok::<
                    (Seq<(Token, Token)>, int),
                    ParseError,
                >((v@, final(self).pos())),
                Err(e) => param_list_at(old(self).toks(), old(self).pos()) == Err::<
                    (Seq<(Token, Token)>, int),
                    ParseError,
                >(e),
            },
            r is Ok ==> old(self).pos() <= final(self).pos() && final(self).ready(),
    {
        let ghost toks = self.tokens@;
        let mut params: Vec<(Token, Token)> = Vec::new();
        if !matches!(self.current().kind, TokenKind::CloseParen) {
            let first = self.param()?;
            params.push(first);
            let ghost c2 = self.cursor as int;
            assert(params@ =~= seq![first]);
            while matches!(self.current().kind, TokenKind::Comma)
                invariant
                    self.ready(),
                    self.tokens@ == toks,
                    toks == old(self).tokens@,
                    c2 <= self.cursor,
                    old(self).cursor < c2,
                    param_list_at(toks, old(self).cursor as int) == adv0(
                        toks,
                        c2,
                        params_more(toks, self.cursor as int, params@),
                    ),
                decreases toks.len() - self.cursor,
            {
                self.advance();
                let p = self.param()?;
                params.push(p);
            }
        }
        Ok(params)
    }

    fn param(&mut self) -> (r: Result<(Token, Token), ParseError>)
        requires
            old(self).ready(),
        ensures
            final(self).toks() == old(self).toks(),
            match param_at(old(self).toks(), old(self).pos()) {
                Ok((p, c)) => r == Ok::<(Token, Token), ParseError>(p) && final(self).pos() == c,
                Err(e) => r == Err::<(Token, Token), ParseError>(e),
            },
            r is Ok ==> old(self).pos() < final(self).pos() && final(self).ready(),
    {
        let name = self.consume();
        if !matches!(name.kind, TokenKind::Symbol(_)) {
            return Err(ParseError::Unexpected { expected: "symbol", found: name });
        }
        self.consume_expected(Punct::Colon, "expected ':' after symbol")?;
        let typ = self.consume();
        if !matches!(typ.kind, TokenKind::Symbol(_) | TokenKind::PrimitiveType(_)) {
            return Err(ParseError::Unexpected { expected: "symbol or primitive type", found: typ });
        }
        Ok((name, typ))
    }

    fn print_stmt(&mut self, newline: bool) -> (r: Result<Stmt, ParseError>)
        requires
            old(self).ready(),
        ensures
            final(self).toks() == old(self).toks(),
            parsed_as(r, final(self).pos(), print_at(old(self).toks(), old(self).pos(), newline)),
            r is Ok ==> old(self).pos() < final(self).pos() && final(self).ready(),
        decreases old(self).tokens@.len() - old(self).cursor, 60int,
    {
        let expr = self.expression()?;
        self.consume_expected(Punct::Semicolon, "expected ';' after print")?;
        let built = Stmt::Print(expr, newline);
        proof {
            lemma_stmt_view(built);
        }
        Ok(built)
    }

    fn return_stmt(&mut self, token: Token) -> (r: Result<Stmt, ParseError>)
        requires
            old(self).ready(),
        ensures
            final(self).toks() == old(self).toks(),
            parsed_as(r, final(self).pos(), return_at(old(self).toks(), old(self).pos(), token)),
            r is Ok ==> old(self).pos() < final(self).pos() && final(self).ready(),
        decreases old(self).tokens@.len() - old(self).cursor, 60int,
    {
        if matches!(self.current().kind, TokenKind::Semicolon) {
            self.advance();
            let built = Stmt::Return(token, None);
            proof {
                lemma_stmt_view(built);
            }
            return Ok(built);
        }
        let expr = self.expression()?;
        self.consume_expected(Punct::Semicolon, "expected ';' after return")?;
        let built = Stmt::Return(token, Some(expr));
        proof {
            lemma_stmt_view(built);
        }
        Ok(built)
    }

    fn let_stmt(&mut self) -> (r: Result<Stmt, ParseError>)
        requires
            old(self).ready(),
        ensures
            final(self).toks() == old(self).toks(),
            parsed_as(r, final(self).pos(), let_at(old(self).toks(), old(self).pos())),
            r is Ok ==> old(self).pos() < final(self).pos() && final(self).ready(),
        decreases old(self).tokens@.len() - old(self).cursor, 60int,
    {
        let name = self.consume();
        if !matches!(name.kind, TokenKind::Symbol(_)) {
            return Err(ParseError::Unexpected { expected: "symbol", found: name });
        }
        self.consume_expected(Punct::Colon, "expected ':' after symbol")?;
        let typ = self.consume();
        if !matches!(typ.kind, TokenKind::Symbol(_) | TokenKind::PrimitiveType(_)) {
            return Err(ParseError::Unexpected { expected: "symbol or primitive type", found: name });
        }
        self.consume_expected(Punct::Equal, "expected '=' after type")?;
        let value = self.expression()?;
        self.consume_expected(Punct::Semicolon, "expected ';' after expression")?;
        let built = Stmt::Let(name, typ, value);
        proof {
            lemma_stmt_view(built);
        }
        Ok(built)
    }

    fn while_stmt(&mut self) -> (r: Result<Stmt, ParseError>)
        requires
            old(self).ready(),
        ensures
            final(self).toks() == old(self).toks(),
            parsed_as(r, final(self).pos(), while_at(old(self).toks(), old(self).pos())),
            r is Ok ==> old(self).pos() < final(self).pos() && final(self).ready(),
        decreases old(self).tokens@.len() - old(self).cursor, 60int,
    {
        self.consume_expected(Punct::OpenParen, "expected '(' after while")?;
        let cond = self.expression()?;
        self.consume_expected(Punct::CloseParen, "expected ')' after expression")?;
        let body = self.block()?;
        let b = Stmt::Block(body);
        proof {
            lemma_stmt_view(b);
        }
        let r = Stmt::While(cond, Box::new(b));
        proof {
            lemma_stmt_view(r);
        }
        Ok(r)
    }

    fn block(&mut self) -> (r: Result<Vec<Stmt>, ParseError>)
        requires
            old(self).ready(),
        ensures
            final(self).toks() == old(self).toks(),
            parsed_block(r, final(self).pos(), block_at(old(self).toks(), old(self).pos())),
            r is Ok ==> old(self).pos() < final(self).pos() && final(self).ready(),
        decreases old(self).tokens@.len() - old(self).cursor, 40int,
    {
        let ghost toks = self.tokens@;
        let ghost c0 = self.cursor as int;
        self.consume_expected(Punct::OpenCurly, "expected '{' when defining block")?;
        let ghost c1 = self.cursor as int;
        let ghost goal = block_at(toks, c0);
        let mut stmts: Vec<Stmt> = Vec::new();
        assert(stmts_view(stmts@) =~= seq![]);
        while !matches!(self.current().kind, TokenKind::CloseCurly) && !self.is_at_end()
            invariant
                self.ready(),
                self.tokens@ == toks,
                toks == old(self).tokens@,
                c0 == old(self).cursor,
                c0 < c1 <= self.cursor,
                goal == block_at(toks, c0),
                goal == close_block(toks, c1, block_more(toks, self.cursor as int, stmts_view(stmts@))),
            decreases toks.len() - self.cursor,
        {
            let ghost before = stmts_view(stmts@);
            let s = self.statement()?;
            stmts.push(s);
            assert(stmts_view(stmts@) =~= before.push(s@));
        }
        self.consume_expected(Punct::CloseCurly, "expected '}' after defining block")?;
        Ok(stmts)
    }

    fn if_stmt(&mut self) -> (r: Result<Stmt, ParseError>)
        requires
            old(self).ready(),
        ensures
            final(self).toks() == old(self).toks(),
            parsed_as(r, final(self).pos(), if_at(old(self).toks(), old(self).pos())),
            r is Ok ==> old(self).pos() < final(self).pos() && final(self).ready(),
        decreases old(self).tokens@.len() - old(self).cursor, 60int,
    {
        self.consume_expected(Punct::OpenParen, "expected '(' after if")?;
        let cond = self.expression()?;
        self.consume_expected(Punct::CloseParen, "expected ')' after expression")?;
        self.if_body(cond)
    }

    /// The branches of an if statement with condition `cond`.
    #[verifier::rlimit(40)]
    fn if_body(&mut self, cond: Expr) -> (r: Result<Stmt, ParseError>)
        requires
            old(self).ready(),
        ensures
            final(self).toks() == old(self).toks(),
            parsed_as(r, final(self).pos(), if_body_at(old(self).toks(), old(self).pos(), cond@)),
            r is Ok ==> old(self).pos() < final(self).pos() && final(self).ready(),
        decreases old(self).tokens@.len() - old(self).cursor, 61int,
    {
        let then_body = self.block()?;
        let then_block = Stmt::Block(then_body);
        proof {
            lemma_stmt_view(then_block);
        }
        let then_block = Box::new(then_block);
        if matches!(self.current().kind, TokenKind::Else) {
            self.advance();
            if matches!(self.current().kind, TokenKind::If) {
                self.advance();
                let nested = self.if_stmt()?;
                let r = Stmt::If(cond, then_block, Some(Box::new(nested)));
                proof {
                    lemma_stmt_view(r);
                }
                Ok(r)
            } else {
                let else_body = self.block()?;
                let else_block = Stmt::Block(else_body);
                proof {
                    lemma_stmt_view(else_block);
                }
                let r = Stmt::If(cond, then_block, Some(Box::new(else_block)));
                proof {
                    lemma_stmt_view(r);
                }
                Ok(r)
            }
        } else {
            let r = Stmt::If(cond, then_block, None);
            proof {
                lemma_stmt_view(r);
            }
            Ok(r)
        }
    }

    fn expression(&mut self) -> (r: Result<Expr, ParseError>)
        requires
            old(self).ready(),
        ensures
            final(self).toks() == old(self).toks(),
            parsed_as(r, final(self).pos(), expr_at(old(self).toks(), old(self).pos())),
            r is Ok ==> old(self).pos() < final(self).pos() && final(self).ready(),
        decreases old(self).tokens@.len() - old(self).cursor, 45int,
    {
        self.assignment()
    }

    fn assignment(&mut self) -> (r: Result<Expr, ParseError>)
        requires
            old(self).ready(),
        ensures
            final(self).toks() == old(self).toks(),
            parsed_as(r, final(self).pos(), assignment_at(old(self).toks(), old(self).pos())),
            r is Ok ==> old(self).pos() < final(self).pos() && final(self).ready(),
        decreases old(self).tokens@.len() - old(self).cursor, 44int,
    {
        let expr = self.or()?;
        if matches!(self.current().kind, TokenKind::Equal) {
            self.advance();
            let value = self.assignment()?;
            proof {
                lemma_expr_view(expr);
            }
            if let Expr::Variable(_) = expr {
                let built = Expr::Assignment(Box::new(expr), Box::new(value));
                proof {
                    lemma_expr_view(built);
                }
                return Ok(built);
            }
            return Err(
                ParseError::Invalid {
                    message: "invalid assignment target",
                    at: expr.token().duplicate(),
                },
            );
        }
        Ok(expr)
    }

    fn or(&mut self) -> (r: Result<Expr, ParseError>)
        requires
            old(self).ready(),
        ensures
            final(self).toks() == old(self).toks(),
            parsed_as(r, final(self).pos(), or_at(old(self).toks(), old(self).pos())),
            r is Ok ==> old(self).pos() < final(self).pos() && final(self).ready(),
        decreases old(self).tokens@.len() - old(self).cursor, 43int,
    {
        let ghost toks = self.tokens@;
        let ghost c0 = self.cursor as int;
        let mut expr = self.and()?;
        while matches!(self.current().kind, TokenKind::Or)
            invariant
                self.ready(),
                self.tokens@ == toks,
                toks == old(self).tokens@,
                c0 == old(self).cursor,
                c0 < self.cursor,
                or_at(toks, c0) == or_more(toks, self.cursor as int, expr@),
            decreases toks.len() - self.cursor,
        {
            let op = self.consume();
            let right = self.and()?;
            expr = Expr::Logical(Box::new(expr), op, Box::new(right));
            proof {
                lemma_expr_view(expr);
            }
        }
        Ok(expr)
    }

    fn and(&mut self) -> (r: Result<Expr, ParseError>)
        requires
            old(self).ready(),
        ensures
            final(self).toks() == old(self).toks(),
            parsed_as(r, final(self).pos(), and_at(old(self).toks(), old(self).pos())),
            r is Ok ==> old(self).pos() < final(self).pos() && final(self).ready(),
        decreases old(self).tokens@.len() - old(self).cursor, 41int,
    {
        let ghost toks = self.tokens@;
        let ghost c0 = self.cursor as int;
        let mut expr = self.equality()?;
        while matches!(self.current().kind, TokenKind::And)
            invariant
                self.ready(),
                self.tokens@ == toks,
                toks == old(self).tokens@,
                c0 == old(self).cursor,
                c0 < self.cursor,
                and_at(toks, c0) == and_more(toks, self.cursor as int, expr@),
            decreases toks.len() - self.cursor,
        {
            let op = self.consume();
            let right = self.equality()?;
            expr = Expr::Logical(Box::new(expr), op, Box::new(right));
            proof {
                lemma_expr_view(expr);
            }
        }
        Ok(expr)
    }

    fn equality(&mut self) -> (r: Result<Expr, ParseError>)
        requires
            old(self).ready(),
        ensures
            final(self).toks() == old(self).toks(),
            parsed_as(r, final(self).pos(), equality_at(old(self).toks(), old(self).pos())),
            r is Ok ==> old(self).pos() < final(self).pos() && final(self).ready(),
        decreases old(self).tokens@.len() - old(self).cursor, 39int,
    {
        let ghost toks = self.tokens@;
        let ghost c0 = self.cursor as int;
        let mut expr = self.comparison()?;
        while matches!(self.current().kind, TokenKind::NotEq | TokenKind::Equals)
            invariant
                self.ready(),
                self.tokens@ == toks,
                toks == old(self).tokens@,
                c0 == old(self).cursor,
                c0 < self.cursor,
                equality_at(toks, c0) == equality_more(toks, self.cursor as int, expr@),
            decreases toks.len() - self.cursor,
        {
            let op = self.consume();
            let right = self.comparison()?;
            expr = Expr::Binary(Box::new(expr), op, Box::new(right));
            proof {
                lemma_expr_view(expr);
            }
        }
        Ok(expr)
    }

    fn comparison(&mut self) -> (r: Result<Expr, ParseError>)
        requires
            old(self).ready(),
        ensures
            final(self).toks() == old(self).toks(),
            parsed_as(r, final(self).pos(), comparison_at(old(self).toks(), old(self).pos())),
            r is Ok ==> old(self).pos() < final(self).pos() && final(self).ready(),
        decreases old(self).tokens@.len() - old(self).cursor, 37int,
    {
        let ghost toks = self.tokens@;
        let ghost c0 = self.cursor as int;
        let mut expr = self.term()?;
        while matches!(
            self.current().kind,
            TokenKind::Greater | TokenKind::GreaterEq | TokenKind::Less | TokenKind::LessEq
        )
            invariant
                self.ready(),
                self.tokens@ == toks,
                toks == old(self).tokens@,
                c0 == old(self).cursor,
                c0 < self.cursor,
                comparison_at(toks, c0) == comparison_more(toks, self.cursor as int, expr@),
            decreases toks.len() - self.cursor,
        {
            let op = self.consume();
            let right = self.term()?;
            expr = Expr::Binary(Box::new(expr), op, Box::new(right));
            proof {
                lemma_expr_view(expr);
            }
        }
        Ok(expr)
    }

    fn term(&mut self) -> (r: Result<Expr, ParseError>)
        requires
            old(self).ready(),
        ensures
            final(self).toks() == old(self).toks(),
            parsed_as(r, final(self).pos(), term_at(old(self).toks(), old(self).pos())),
            r is Ok ==> old(self).pos() < final(self).pos() && final(self).ready(),
        decreases old(self).tokens@.len() - old(self).cursor, 35int,
    {
        let ghost toks = self.tokens@;
        let ghost c0 = self.cursor as int;
        let mut expr = self.factor()?;
        while matches!(self.current().kind, TokenKind::Plus | TokenKind::Minus)
            invariant
                self.ready(),
                self.tokens@ == toks,
                toks == old(self).tokens@,
                c0 == old(self).cursor,
                c0 < self.cursor,
                term_at(toks, c0) == term_more(toks, self.cursor as int, expr@),
            decreases toks.len() - self.cursor,
        {
            let op = self.consume();
            let right = self.factor()?;
            expr = Expr::Binary(Box::new(expr), op, Box::new(right));
            proof {
                lemma_expr_view(expr);
            }
        }
        Ok(expr)
    }

    fn factor(&mut self) -> (r: Result<Expr, ParseError>)
        requires
            old(self).ready(),
        ensures
            final(self).toks() == old(self).toks(),
            parsed_as(r, final(self).pos(), factor_at(old(self).toks(), old(self).pos())),
            r is Ok ==> old(self).pos() < final(self).pos() && final(self).ready(),
        decreases old(self).tokens@.len() - old(self).cursor, 33int,
    {
        let ghost toks = self.tokens@;
        let ghost c0 = self.cursor as int;
        let mut expr = self.unary()?;
        while matches!(self.current().kind, TokenKind::Modulo | TokenKind::Mul | TokenKind::Div)
            invariant
                self.ready(),
                self.tokens@ == toks,
                toks == old(self).tokens@,
                c0 == old(self).cursor,
                c0 < self.cursor,
                factor_at(toks, c0) == factor_more(toks, self.cursor as int, expr@),
            decreases toks.len() - self.cursor,
        {
            let op = self.consume();
            let right = self.unary()?;
            expr = Expr::Binary(Box::new(expr), op, Box::new(right));
            proof {
                lemma_expr_view(expr);
            }
        }
        Ok(expr)
    }

    fn unary(&mut self) -> (r: Result<Expr, ParseError>)
        requires
            old(self).ready(),
        ensures
            final(self).toks() == old(self).toks(),
            parsed_as(r, final(self).pos(), unary_at(old(self).toks(), old(self).pos())),
            r is Ok ==> old(self).pos() < final(self).pos() && final(self).ready(),
        decreases old(self).tokens@.len() - old(self).cursor, 31int,
    {
        if matches!(self.current().kind, TokenKind::Not | TokenKind::Minus) {
            let op = self.consume();
            let right = self.unary()?;
            let built = Expr::Unary(op, Box::new(right));
            proof {
                lemma_expr_view(built);
            }
            return Ok(built);
        }
        self.func_call()
    }

    fn func_call(&mut self) -> (r: Result<Expr, ParseError>)
        requires
            old(self).ready(),
        ensures
            final(self).toks() == old(self).toks(),
            parsed_as(r, final(self).pos(), call_at(old(self).toks(), old(self).pos())),
            r is Ok ==> old(self).pos() < final(self).pos() && final(self).ready(),
        decreases old(self).tokens@.len() - old(self).cursor, 30int,
    {
        let expr = self.primary()?;
        if matches!(self.current().kind, TokenKind::OpenParen) {
            proof {
                lemma_expr_view(expr);
            }
            if let Expr::Variable(_) = expr {
                self.advance();
                return self.finish_func_call(expr);
            } else {
                return Err(
                    ParseError::Unexpected { expected: "symbol", found: self.previous().duplicate() },
                );
            }
        }
        Ok(expr)
    }

    fn finish_func_call(&mut self, callee: Expr) -> (r: Result<Expr, ParseError>)
        requires
            old(self).ready(),
        ensures
            final(self).toks() == old(self).toks(),
            parsed_as(r, final(self).pos(), call_args_at(old(self).toks(), old(self).pos(), callee@)),
            r is Ok ==> old(self).pos() < final(self).pos() && final(self).ready(),
        decreases old(self).tokens@.len() - old(self).cursor, 48int,
    {
        let args = self.arguments()?;
        self.consume_expected(Punct::CloseParen, "expected ')' after function call")?;
        let built = Expr::FuncCall(Box::new(callee), args);
        proof {
            lemma_expr_view(built);
        }
        Ok(built)
    }

    /// The arguments of a call, up to the closing bracket.
    #[verifier::rlimit(40)]
    fn arguments(&mut self) -> (r: Result<Vec<Expr>, ParseError>)
        requires
            old(self).ready(),
        ensures
            final(self).toks() == old(self).toks(),
            match r {
                Ok(v) => args_list_at(old(self).toks(), old(self).pos()) == Ok::<
                    (Seq<ExprV>, int),
                    ParseError,
                >((exprs_view(v@), final(self).pos())),
                Err(e) => args_list_at(old(self).toks(), old(self).pos()) == Err::<
                    (Seq<ExprV>, int),
                    ParseError,
                >(e),
            },
            r is Ok ==> old(self).pos() <= final(self).pos() && final(self).ready(),
        decreases old(self).tokens@.len() - old(self).cursor, 46int,
    {
        let ghost toks = self.tokens@;
        let ghost c0 = self.cursor as int;
        let mut args: Vec<Expr> = Vec::new();
        assert(exprs_view(args@) =~= seq![]);
        if !matches!(self.current().kind, TokenKind::CloseParen) {
            let first = self.expression()?;
            args.push(first);
            assert(exprs_view(args@) =~= seq![first@]);
            while matches!(self.current().kind, TokenKind::Comma)
                invariant
                    self.ready(),
                    self.tokens@ == toks,
                    toks == old(self).tokens@,
                    c0 == old(self).cursor,
                    c0 < self.cursor,
                    args_list_at(toks, c0) == args_more(
                        toks,
                        self.cursor as int,
                        exprs_view(args@),
                    ),
                decreases toks.len() - self.cursor,
            {
                if args.len() >= 255 {
                    return Err(
                        ParseError::Invalid {
                            message: "cannot have more than 255 arguments on function call",
                            at: self.current().duplicate(),
                        },
                    );
                }
                self.advance();
                let ghost before = exprs_view(args@);
                let a = self.expression()?;
                args.push(a);
                assert(exprs_view(args@) =~= before.push(a@));
            }
        }
        Ok(args)
    }

    fn primary(&mut self) -> (r: Result<Expr, ParseError>)
        requires
            old(self).ready(),
        ensures
            final(self).toks() == old(self).toks(),
            parsed_as(r, final(self).pos(), primary_at(old(self).toks(), old(self).pos())),
            r is Ok ==> old(self).pos() < final(self).pos() && final(self).ready(),
        decreases old(self).tokens@.len() - old(self).cursor, 20int,
    {
        if matches!(
            self.current().kind,
            TokenKind::False | TokenKind::True | TokenKind::Str(_) | TokenKind::Number(_)
                | TokenKind::Char(_)
        ) {
            let token = self.consume();
            let built = Expr::Literal(token);
            proof {
                lemma_expr_view(built);
            }
            return Ok(built);
        }
        if matches!(self.current().kind, TokenKind::Symbol(_)) {
            let token = self.consume();
            let built = Expr::Variable(token);
            proof {
                lemma_expr_view(built);
            }
            return Ok(built);
        }
        if matches!(self.current().kind, TokenKind::OpenParen) {
            self.advance();
            let expr = self.expression()?;
            self.consume_expected(Punct::CloseParen, "expected ')' after expression grouping")?;
            let built = Expr::Grouping(Box::new(expr));
            proof {
                lemma_expr_view(built);
            }
            return Ok(built);
        }
        Err(ParseError::Unexpected { expected: "expression", found: self.current().duplicate() })
    }

    /// The token before the next one (the first token at the start).
    fn previous(&self) -> (r: &Token)
        requires
            self.cursor <= self.tokens@.len(),
            self.tokens@.len() > 0,
        ensures
            *r == self.tokens@[if self.cursor > 0 { self.cursor - 1 } else { 0 }],
    {
        let mut idx: usize = 0;
        if self.cursor > 0 {
            idx = self.cursor - 1;
        }
        &self.tokens[idx]
    }

    /// The next token.
    fn current(&self) -> (r: &Token)
        requires
            self.ready(),
        ensures
            *r == self.tokens@[self.cursor as int],
    {
        &self.tokens[self.cursor]
    }

    /// Moves past the next token.
    fn advance(&mut self)
        requires
            old(self).ready(),
        ensures
            final(self).tokens == old(self).tokens,
            final(self).cursor == old(self).cursor + 1,
            !(old(self).tokens@[old(self).cursor as int].kind is EOF) ==> final(self).ready(),
    {
        self.cursor = self.cursor + 1;
    }

    /// The next token, moving past it.
    fn consume(&mut self) -> (r: Token)
        requires
            old(self).ready(),
        ensures
            final(self).tokens == old(self).tokens,
            final(self).cursor == old(self).cursor + 1,
            r == old(self).tokens@[old(self).cursor as int],
            !(r.kind is EOF) ==> final(self).ready(),
    {
        let token = self.tokens[self.cursor].duplicate();
        self.cursor = self.cursor + 1;
        token
    }

    /// Whether the next token is the end-of-file token.
    fn is_at_end(&self) -> (r: bool)
        requires
            self.ready(),
        ensures
            r == (self.tokens@[self.cursor as int].kind is EOF),
    {
        matches!(self.current().kind, TokenKind::EOF)
    }

    /// Moves past the next token, which must be the punctuation `expected`; else fails
    /// with `msg` and the token found.
    fn consume_expected(&mut self, expected: Punct, msg: &'static str) -> (r: Result<
        (),
        ParseError,
    >)
        requires
            old(self).ready(),
        ensures
            final(self).toks() == old(self).toks(),
            match expect(old(self).toks(), old(self).pos(), expected, msg) {
                Ok(c) => r is Ok && final(self).pos() == c && final(self).ready(),
                Err(e) => r == Err::<(), ParseError>(e),
            },
    {
        let check = self.consume();
        let found = match expected {
            Punct::OpenParen => matches!(check.kind, TokenKind::OpenParen),
            Punct::CloseParen => matches!(check.kind, TokenKind::CloseParen),
            Punct::OpenCurly => matches!(check.kind, TokenKind::OpenCurly),
            Punct::CloseCurly => matches!(check.kind, TokenKind::CloseCurly),
            Punct::Semicolon => matches!(check.kind, TokenKind::Semicolon),
            Punct::Colon => matches!(check.kind, TokenKind::Colon),
            Punct::Equal => matches!(check.kind, TokenKind::Equal),
        };
        if !found {
            return Err(ParseError::Missing { message: msg, found: check });
        }
        Ok(())
    }
}

/// The tokens up to and including the first end-of-file token; all of them where there
/// is none.
pub open spec fn through_first_eof(toks: Seq<Token>) -> Seq<Token>
    decreases toks.len(),
{
    if toks.len() == 0 {
        toks
    } else if toks[0].kind is EOF {
        seq![toks[0]]
    } else {
        seq![toks[0]] + through_first_eof(toks.drop_first())
    }
}

/// Whether some token marks the end of the file.
pub open spec fn has_eof(toks: Seq<Token>) -> bool {
    exists|i: int| 0 <= i < toks.len() && (#[trigger] toks[i]).kind is EOF
}

/// Where the first end-of-file token is at `k`, the tokens through it are the first `k + 1`.
proof fn lemma_through_first_eof(toks: Seq<Token>, k: int)
    requires
        0 <= k < toks.len(),
        toks[k].kind is EOF,
        forall|j: int| 0 <= j < k ==> !((#[trigger] toks[j]).kind is EOF),
    ensures
        through_first_eof(toks) == toks.subrange(0, k + 1),
    decreases k,
{
    if k == 0 {
        assert(seq![toks[0]] =~= toks.subrange(0, 1));
    } else {
        let rest = toks.drop_first();
        assert(!(toks[0].kind is EOF));
        assert forall|j: int| 0 <= j < k - 1 implies !((#[trigger] rest[j]).kind is EOF) by {
            assert(rest[j] == toks[j + 1]);
        }
        lemma_through_first_eof(rest, k - 1);
        assert(seq![toks[0]] + rest.subrange(0, k) =~= toks.subrange(0, k + 1));
    }
}

/// Where no token marks the end of the file, all of them are kept.
proof fn lemma_no_eof_kept(toks: Seq<Token>)
    requires
        forall|j: int| 0 <= j < toks.len() ==> !((#[trigger] toks[j]).kind is EOF),
    ensures
        through_first_eof(toks) == toks,
    decreases toks.len(),
{
    if toks.len() > 0 {
        let rest = toks.drop_first();
        assert(!(toks[0].kind is EOF));
        assert forall|j: int| 0 <= j < rest.len() implies !((#[trigger] rest[j]).kind is EOF) by {
            assert(rest[j] == toks[j + 1]);
        }
        lemma_no_eof_kept(rest);
        assert(seq![toks[0]] + rest =~= toks);
    }
}

/// The parser reads all that the lexer yields: tokens whose models a successful lex gives
/// hold an end-of-file token, their last and only one, so a parser over them is ready and
/// keeps every token.
pub proof fn lemma_lexed_tokens_are_parsable(
    ts: Seq<Token>,
    src: Seq<char>,
    file: Seq<char>,
    st: crate::lexer::LexState,
)
    requires
        crate::lexer::lex_from(src, file, st) == Ok::<Seq<crate::token::TokenView>, crate::lexer::LexError>(
            crate::lexer::views(ts),
        ),
    ensures
        has_eof(ts),
        through_first_eof(ts) == ts,
        well_formed(ts),
{
    crate::lexer::lemma_lex_ends_with_eof(src, file, st);
    let vs = crate::lexer::views(ts);
    let k = ts.len() - 1;
    assert(vs.len() == ts.len());
    assert(vs[k] == ts[k]@);
    assert(ts[k].kind is EOF);
    assert forall|j: int| 0 <= j < k implies !((#[trigger] ts[j]).kind is EOF) by {
        assert(vs[j] == ts[j]@);
        assert(vs.drop_last()[j] == vs[j]);
    }
    lemma_through_first_eof(ts, k);
    assert(ts.subrange(0, k + 1) =~= ts);
}

} // verus!
