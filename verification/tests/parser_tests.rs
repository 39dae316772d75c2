use smol::ast::{Expr, Stmt};
use smol::grammar::ParseError;
use smol::lexer::Lexer;
use smol::parser::Parser;
use smol::token::{Token, TokenKind};

fn parse(src: &str) -> Result<Vec<Stmt>, ParseError> {
    let mut lexer = Lexer::new("p.smol", src.to_string());
    let tokens = lexer.lex().unwrap();
    let mut parser = Parser::new(tokens);
    parser.parse()
}

#[test]
fn function_declaration() {
    let stmts = parse("fn add(a: int, b: int) int { return a + b; }").unwrap();
    assert_eq!(stmts.len(), 1);
    match &stmts[0] {
        Stmt::Func(name, params, ret, body) => {
            assert_eq!(name.kind, TokenKind::Symbol("add".to_string()));
            assert_eq!(params.len(), 2);
            assert_eq!(params[1].0.kind, TokenKind::Symbol("b".to_string()));
            assert_eq!(params[1].1.kind, TokenKind::PrimitiveType("int".to_string()));
            assert_eq!(ret.kind, TokenKind::PrimitiveType("int".to_string()));
            match &**body {
                Stmt::Block(inner) => {
                    assert_eq!(inner.len(), 1);
                    assert!(matches!(&inner[0], Stmt::Return(_, Some(Expr::Binary(_, op, _))) if op.kind == TokenKind::Plus));
                },
                other => panic!("unexpected body {other:?}"),
            }
        },
        other => panic!("unexpected statement {other:?}"),
    }
}

#[test]
fn precedence_of_operators() {
    let stmts = parse("x = 1 + 2 * 3;").unwrap();
    match &stmts[0] {
        Stmt::Expression(Expr::Assignment(target, value)) => {
            assert!(matches!(&**target, Expr::Variable(t) if t.kind == TokenKind::Symbol("x".to_string())));
            match &**value {
                Expr::Binary(l, op, r) => {
                    assert_eq!(op.kind, TokenKind::Plus);
                    assert!(matches!(&**l, Expr::Literal(_)));
                    assert!(matches!(&**r, Expr::Binary(_, m, _) if m.kind == TokenKind::Mul));
                },
                other => panic!("unexpected value {other:?}"),
            }
        },
        other => panic!("unexpected statement {other:?}"),
    }
}

#[test]
fn logical_and_binds_tighter_than_or() {
    let stmts = parse("println a || b && c;").unwrap();
    match &stmts[0] {
        Stmt::Print(Expr::Logical(_, op, r), true) => {
            assert_eq!(op.kind, TokenKind::Or);
            assert!(matches!(&**r, Expr::Logical(_, a, _) if a.kind == TokenKind::And));
        },
        other => panic!("unexpected statement {other:?}"),
    }
}

#[test]
fn while_and_if_wrap_their_bodies_in_blocks() {
    let stmts = parse("while (x) { print 1; } if (y) { } else { }").unwrap();
    assert_eq!(stmts.len(), 2);
    assert!(matches!(&stmts[0], Stmt::While(Expr::Variable(_), b) if matches!(&**b, Stmt::Block(v) if v.len() == 1)));
    assert!(matches!(&stmts[1], Stmt::If(Expr::Variable(_), _, Some(_))));
}

#[test]
fn call_with_arguments() {
    let stmts = parse("f(1, g(2), 3);").unwrap();
    match &stmts[0] {
        Stmt::Expression(Expr::FuncCall(callee, args)) => {
            assert!(matches!(&**callee, Expr::Variable(t) if t.kind == TokenKind::Symbol("f".to_string())));
            assert_eq!(args.len(), 3);
            assert!(matches!(&args[1], Expr::FuncCall(_, inner) if inner.len() == 1));
        },
        other => panic!("unexpected statement {other:?}"),
    }
}

#[test]
fn missing_semicolon() {
    match parse("x") {
        Err(ParseError::Missing { message, found }) => {
            assert_eq!(message, "expected ';' after expression");
            assert_eq!(found.kind, TokenKind::EOF);
        },
        other => panic!("unexpected result {other:?}"),
    }
}

#[test]
fn function_name_must_be_a_symbol() {
    match parse("fn 1() void {}") {
        Err(ParseError::Unexpected { expected, found }) => {
            assert_eq!(expected, "symbol");
            assert_eq!(found.kind, TokenKind::Number("1".to_string()));
            assert_eq!(found.pos, (1, 4));
        },
        other => panic!("unexpected result {other:?}"),
    }
}

#[test]
fn empty_program() {
    assert_eq!(parse("").unwrap().len(), 0);
}

#[test]
fn break_and_continue_statements() {
    let stmts = parse("break; continue;").unwrap();
    assert_eq!(stmts.len(), 2);
    assert!(matches!(&stmts[0], Stmt::Break(b) if b.kind == TokenKind::Break && b.pos == (1, 1)));
    assert!(matches!(&stmts[1], Stmt::Continue(c) if c.kind == TokenKind::Continue && c.pos == (1, 8)));
}

#[test]
fn break_needs_a_semicolon() {
    match parse("break") {
        Err(ParseError::Missing { message, found }) => {
            assert_eq!(message, "expected ';' after break");
            assert_eq!(found.kind, TokenKind::EOF);
        },
        other => panic!("unexpected result {other:?}"),
    }
}

#[test]
fn braces_make_a_block_statement() {
    let stmts = parse("{ x = 1; }").unwrap();
    assert_eq!(stmts.len(), 1);
    match &stmts[0] {
        Stmt::Block(inner) => {
            assert_eq!(inner.len(), 1);
            match &inner[0] {
                Stmt::Expression(Expr::Assignment(target, value)) => {
                    assert!(matches!(&**target, Expr::Variable(x) if x.kind == TokenKind::Symbol("x".to_string())));
                    assert!(matches!(&**value, Expr::Literal(n) if n.kind == TokenKind::Number("1".to_string())));
                },
                other => panic!("unexpected statement {other:?}"),
            }
        },
        other => panic!("unexpected statement {other:?}"),
    }
}

#[test]
fn nested_and_empty_blocks() {
    let stmts = parse("{ { } print 1; }").unwrap();
    assert!(matches!(&stmts[0], Stmt::Block(v) if v.len() == 2 && matches!(&v[0], Stmt::Block(w) if w.is_empty())));
}

#[test]
fn tokens_after_the_end_of_file_are_not_read() {
    let t = |kind: TokenKind| Token { origin_file: "p.smol".to_string(), kind, pos: (1, 1) };
    let mut parser = Parser::new(vec![t(TokenKind::EOF), t(TokenKind::Plus)]);
    assert_eq!(parser.parse().unwrap().len(), 0);
    let mut parser = Parser::new(vec![t(TokenKind::Break), t(TokenKind::Semicolon), t(TokenKind::EOF), t(TokenKind::Plus)]);
    assert_eq!(parser.parse().unwrap().len(), 1);
}
