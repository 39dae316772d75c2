use smol::ast::{Expr, Stmt};
use smol::token::{Token, TokenKind};

fn tok(kind: TokenKind, col: usize) -> Token {
    Token { origin_file: "a.smol".to_string(), kind, pos: (1, col) }
}

#[test]
fn expression_tokens() {
    let call = Expr::FuncCall(
        Box::new(Expr::Variable(tok(TokenKind::Symbol("f".to_string()), 3))),
        vec![Expr::Literal(tok(TokenKind::Number("1".to_string()), 5))],
    );
    assert_eq!(call.token().pos, (1, 3));
    let grouped = Expr::Grouping(Box::new(Expr::Binary(
        Box::new(Expr::Literal(tok(TokenKind::True, 2))),
        tok(TokenKind::Equals, 7),
        Box::new(Expr::Literal(tok(TokenKind::False, 10))),
    )));
    assert_eq!(grouped.token().kind, TokenKind::Equals);
}

#[test]
fn statement_tokens() {
    let block = Stmt::Block(vec![
        Stmt::Return(tok(TokenKind::Return, 4), None),
        Stmt::Break(tok(TokenKind::Semicolon, 9)),
    ]);
    assert!(block.has_token());
    assert_eq!(block.token().pos, (1, 4));
    assert!(!Stmt::Block(vec![]).has_token());
    assert!(!Stmt::Block(vec![Stmt::Block(vec![])]).has_token());
    let print = Stmt::Print(Expr::Variable(tok(TokenKind::Symbol("x".to_string()), 8)), true);
    assert_eq!(print.token().pos, (1, 8));
}

#[test]
fn token_kind_texts() {
    assert_eq!(TokenKind::PlusEq.text(), "+=");
    assert_eq!(TokenKind::Or.text(), "||");
    assert_eq!(TokenKind::Println.text(), "println");
    assert_eq!(TokenKind::Symbol("abc".to_string()).text(), "abc");
    assert_eq!(TokenKind::EOF.text(), "end of file");
}

#[test]
fn duplicates_are_equal() {
    let t = tok(TokenKind::Str("\"s\"".to_string()), 1);
    assert_eq!(t.duplicate(), t);
    assert_eq!(t.clone(), t);
    assert_eq!(TokenKind::Number("12".to_string()).duplicate(), TokenKind::Number("12".to_string()));
    assert_ne!(TokenKind::Less.tag(), TokenKind::LessEq.tag());
    assert_eq!(TokenKind::Symbol("a".to_string()).tag(), TokenKind::Symbol("b".to_string()).tag());
}
