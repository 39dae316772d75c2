use smol::grammar::ParseError;
use smol::interpreter::{Interpreter, RuntimeError};
use smol::lexer::{LexError, Lexer};
use smol::parser::Parser;
use smol::report::{lex_report, parse_report};
use smol::value::{FloatAnswer, FloatQuery};

fn floats(q: FloatQuery) -> FloatAnswer {
    match q {
        FloatQuery::Parse(s) => match s.parse::<f64>() {
            Ok(x) => FloatAnswer::Number(x.to_bits()),
            Err(_) => FloatAnswer::NotANumber,
        },
        FloatQuery::Show(a) => FloatAnswer::Text(format!("{}", f64::from_bits(a))),
        _ => FloatAnswer::NotANumber,
    }
}

fn error_of(src: &str) -> RuntimeError {
    let mut lexer = Lexer::new("t.smol", src.to_string());
    let tokens = lexer.lex().unwrap();
    let mut parser = Parser::new(tokens);
    let mut it = Interpreter::new(parser.parse().unwrap());
    it.interpret(&floats, 100).error.unwrap()
}

fn parse_error_of(src: &str) -> ParseError {
    let mut lexer = Lexer::new("p.smol", src.to_string());
    let tokens = lexer.lex().unwrap();
    Parser::new(tokens).parse().unwrap_err()
}

const RED_ERROR: &str = "\x1b[1;91merror\x1b[0m";

#[test]
fn undefined_variable_report() {
    let e = error_of("fn main() void { println y; }");
    assert!(!e.is_panic());
    assert_eq!(
        e.report(&floats),
        format!("t.smol:1:26: {RED_ERROR}: undefined variable '\x1b[1my\x1b[0m'")
    );
}

#[test]
fn main_not_found_has_no_position() {
    let e = error_of("");
    assert_eq!(e.report(&floats), format!("{RED_ERROR}: '\x1b[1mmain\x1b[0m' function not found"));
    let e = error_of("let main: int = 1;");
    assert_eq!(e.message(&floats), "found '\x1b[1mmain\x1b[0m', but it's not a function");
}

#[test]
fn argument_count_messages() {
    let e = error_of("fn f(a: int, b: int) int { return a; } fn main() void { f(1); }");
    assert_eq!(
        e.message(&floats),
        "too few arguments to function '\x1b[1mf\x1b[0m'. expected 2, have 1"
    );
}

#[test]
fn operand_messages() {
    assert_eq!(error_of("fn main() void { println !1; }").message(&floats), "cannot use '!' on value 1");
    assert_eq!(error_of("fn main() void { println -\"s\"; }").message(&floats), "cannot use '-' on value s");
    assert_eq!(
        error_of("fn main() void { println 1 + true; }").message(&floats),
        "cannot use operator '+' between 'int' and 'bool'"
    );
    assert_eq!(
        error_of("fn main() void { println \"a\" * \"b\"; }").message(&floats),
        "operator '*' is not usable on string"
    );
    assert_eq!(
        error_of("fn main() void { println 1.2.3; }").message(&floats),
        "invalid number literal '1.2.3'"
    );
}

#[test]
fn top_level_and_condition_messages() {
    let e = error_of("println 1;");
    assert_eq!(
        e.report(&floats),
        format!("t.smol:1:9: {RED_ERROR}: expected function or variable declarations at top-level")
    );
    assert_eq!(error_of("fn main() void { if (1) { } }").message(&floats), "expected boolean expression");
}

#[test]
fn panics_carry_rust_messages() {
    let e = error_of("fn main() void { println 1 / 0; }");
    assert!(e.is_panic());
    assert_eq!(e.message(&floats), "attempt to divide by zero");
    let e = error_of("fn main() void { println 1 % 0; }");
    assert_eq!(e.message(&floats), "attempt to calculate the remainder with a divisor of zero");
    let e = error_of("fn main() void { println 9223372036854775807 * 2; }");
    assert_eq!(e.message(&floats), "attempt to multiply with overflow");
    let e = error_of("fn main() void { let m: int = 0 - 9223372036854775807 - 1; println -m; }");
    assert_eq!(e.message(&floats), "attempt to negate with overflow");
}

#[test]
fn lexer_error_reports() {
    assert_eq!(
        lex_report("a.smol", &LexError::BadCharLiteral { line: 2, column: 7, found: 'x' }),
        format!("a.smol:2:7: {RED_ERROR}: expected one character, got 'x'")
    );
    assert_eq!(
        lex_report("a.smol", &LexError::UnterminatedString { line: 1, column: 3 }),
        format!("a.smol:1:3: {RED_ERROR}: unterminated string")
    );
}

#[test]
fn parser_error_reports() {
    assert_eq!(parse_report(&parse_error_of("x")), "p.smol:1:1 expected ';' after expression");
    assert_eq!(
        parse_report(&parse_error_of("fn 1() void {}")),
        format!("p.smol:1:4: {RED_ERROR}: expected symbol but got 1")
    );
}

#[test]
fn break_outside_a_loop_report() {
    let e = error_of("fn main() void { break; }");
    assert!(!e.is_panic());
    assert_eq!(e.report(&floats), format!("t.smol:1:18: {RED_ERROR}: 'break' outside of a loop"));
}
