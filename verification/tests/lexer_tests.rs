use smol::lexer::{LexError, Lexer};
use smol::token::{Token, TokenKind};

fn lex(src: &str) -> Result<Vec<Token>, LexError> {
    let mut lexer = Lexer::new("prog.smol", src.to_string());
    lexer.lex()
}

fn kinds(tokens: &[Token]) -> Vec<TokenKind> {
    tokens.iter().map(|t| t.kind.clone()).collect()
}

#[test]
fn let_statement_tokens_and_positions() {
    let tokens = lex("let x: int = 5;").unwrap();
    assert_eq!(
        kinds(&tokens),
        vec![
            TokenKind::Let,
            TokenKind::Symbol("x".to_string()),
            TokenKind::Colon,
            TokenKind::PrimitiveType("int".to_string()),
            TokenKind::Equal,
            TokenKind::Number("5".to_string()),
            TokenKind::Semicolon,
            TokenKind::EOF,
        ]
    );
    let positions: Vec<(usize, usize)> = tokens.iter().map(|t| t.pos).collect();
    assert_eq!(positions, vec![(1, 1), (1, 5), (1, 6), (1, 8), (1, 12), (1, 14), (1, 15), (1, 15)]);
    assert!(tokens.iter().all(|t| t.origin_file == "prog.smol"));
}

#[test]
fn empty_source_gives_only_eof() {
    let tokens = lex("").unwrap();
    assert_eq!(kinds(&tokens), vec![TokenKind::EOF]);
    assert_eq!(tokens[0].pos, (1, 0));
}

#[test]
fn two_character_operators() {
    let tokens = lex("a >= b != c == d <= e && f || g += h").unwrap();
    let ops: Vec<TokenKind> = kinds(&tokens)
        .into_iter()
        .filter(|k| !matches!(k, TokenKind::Symbol(_)))
        .collect();
    assert_eq!(
        ops,
        vec![
            TokenKind::GreaterEq,
            TokenKind::NotEq,
            TokenKind::Equals,
            TokenKind::LessEq,
            TokenKind::And,
            TokenKind::Or,
            TokenKind::PlusEq,
            TokenKind::EOF,
        ]
    );
}

#[test]
fn lone_ampersand_and_bar_give_no_token() {
    let tokens = lex("& |").unwrap();
    assert_eq!(kinds(&tokens), vec![TokenKind::EOF]);
}

#[test]
fn unknown_character() {
    let tokens = lex("#").unwrap();
    assert_eq!(kinds(&tokens), vec![TokenKind::Unknown("#".to_string()), TokenKind::EOF]);
}

#[test]
fn keywords_and_types() {
    let tokens = lex("fn let false true if else while return print println void char x_1").unwrap();
    assert_eq!(
        kinds(&tokens),
        vec![
            TokenKind::Func,
            TokenKind::Let,
            TokenKind::False,
            TokenKind::True,
            TokenKind::If,
            TokenKind::Else,
            TokenKind::While,
            TokenKind::Return,
            TokenKind::Print,
            TokenKind::Println,
            TokenKind::PrimitiveType("void".to_string()),
            TokenKind::PrimitiveType("char".to_string()),
            TokenKind::Symbol("x_1".to_string()),
            TokenKind::EOF,
        ]
    );
}

#[test]
fn numbers_keep_their_dots() {
    let tokens = lex("3.14 1.2.3").unwrap();
    assert_eq!(
        kinds(&tokens),
        vec![
            TokenKind::Number("3.14".to_string()),
            TokenKind::Number("1.2.3".to_string()),
            TokenKind::EOF,
        ]
    );
}

#[test]
fn string_and_char_literals_keep_their_quotes() {
    let tokens = lex("\"hi there\" 'a'").unwrap();
    assert_eq!(
        kinds(&tokens),
        vec![
            TokenKind::Str("\"hi there\"".to_string()),
            TokenKind::Char("'a'".to_string()),
            TokenKind::EOF,
        ]
    );
    assert_eq!(tokens[0].pos, (1, 1));
    assert_eq!(tokens[1].pos, (1, 12));
}

#[test]
fn newlines_move_to_the_next_line() {
    let tokens = lex("a\n  b").unwrap();
    assert_eq!(tokens[0].pos, (1, 1));
    assert_eq!(tokens[1].pos, (2, 3));
    assert_eq!(tokens[1].kind, TokenKind::Symbol("b".to_string()));
}

#[test]
fn letter_right_after_a_number_is_unknown() {
    let tokens = lex("x1 2y").unwrap();
    assert_eq!(
        kinds(&tokens),
        vec![
            TokenKind::Symbol("x1".to_string()),
            TokenKind::Number("2".to_string()),
            TokenKind::Unknown("y".to_string()),
            TokenKind::EOF,
        ]
    );
}

#[test]
fn bad_char_literal_is_an_error() {
    assert_eq!(lex("'ab'"), Err(LexError::BadCharLiteral { line: 1, column: 3, found: 'b' }));
}

#[test]
fn unterminated_string_is_an_error() {
    assert_eq!(lex("  \"abc"), Err(LexError::UnterminatedString { line: 1, column: 3 }));
}

#[test]
fn last_token_is_the_only_eof() {
    let tokens = lex("fn main() void { println 1 + 2; }").unwrap();
    let n = tokens.len();
    assert_eq!(tokens[n - 1].kind, TokenKind::EOF);
    assert!(tokens[..n - 1].iter().all(|t| t.kind != TokenKind::EOF));
}

#[test]
fn break_and_continue_are_keywords() {
    let tokens = lex("break; continue; breaker").unwrap();
    assert_eq!(
        kinds(&tokens),
        vec![
            TokenKind::Break,
            TokenKind::Semicolon,
            TokenKind::Continue,
            TokenKind::Semicolon,
            TokenKind::Symbol("breaker".to_string()),
            TokenKind::EOF,
        ]
    );
}
