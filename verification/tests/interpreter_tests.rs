use smol::interpreter::{Interpreter, Run, RuntimeError, Value};
use smol::lexer::Lexer;
use smol::parser::Parser;
use smol::token::TokenKind;
use smol::value::{FloatAnswer, FloatArith, FloatCompare, FloatQuery};

fn floats(q: FloatQuery) -> FloatAnswer {
    match q {
        FloatQuery::Parse(s) => match s.parse::<f64>() {
            Ok(x) => FloatAnswer::Number(x.to_bits()),
            Err(_) => FloatAnswer::NotANumber,
        },
        FloatQuery::Negate(a) => FloatAnswer::Number((-f64::from_bits(a)).to_bits()),
        FloatQuery::Arith(k, a, b) => {
            let (x, y) = (f64::from_bits(a), f64::from_bits(b));
            let r = match k {
                FloatArith::Add => x + y,
                FloatArith::Sub => x - y,
                FloatArith::Mul => x * y,
                FloatArith::Div => x / y,
                FloatArith::Rem => x % y,
            };
            FloatAnswer::Number(r.to_bits())
        },
        FloatQuery::Compare(k, a, b) => {
            let (x, y) = (f64::from_bits(a), f64::from_bits(b));
            FloatAnswer::Truth(match k {
                FloatCompare::Less => x < y,
                FloatCompare::LessEq => x <= y,
                FloatCompare::Greater => x > y,
                FloatCompare::GreaterEq => x >= y,
                FloatCompare::Equal => x == y,
                FloatCompare::NotEqual => x != y,
            })
        },
        FloatQuery::Show(a) => FloatAnswer::Text(format!("{}", f64::from_bits(a))),
    }
}

fn interpreter(src: &str) -> Interpreter {
    let mut lexer = Lexer::new("t.smol", src.to_string());
    let tokens = lexer.lex().unwrap();
    let mut parser = Parser::new(tokens);
    Interpreter::new(parser.parse().unwrap())
}

fn run_with(src: &str, fuel: u64) -> Run {
    interpreter(src).interpret(&floats, fuel)
}

fn run(src: &str) -> Run {
    run_with(src, 1000)
}

fn output_of(src: &str) -> String {
    let r = run(src);
    assert!(r.error.is_none(), "unexpected error {:?}", r.error);
    r.output
}

#[test]
fn prints_arithmetic() {
    assert_eq!(output_of("fn main() void { println 1 + 2 * 3; }"), "7\n");
    assert_eq!(output_of("fn main() void { println (1 + 2) * 3; }"), "9\n");
    assert_eq!(output_of("fn main() void { println -7 / 2; println 7 % -3; println -5; }"), "-3\n1\n-5\n");
}

#[test]
fn print_without_newline() {
    assert_eq!(output_of("fn main() void { print 1; print \"a\"; print true; }"), "1atrue");
}

#[test]
fn comparisons_and_logic() {
    assert_eq!(
        output_of("fn main() void { println 1 < 2; println 2 <= 1; println 3 == 3; println 3 != 3; println true && false || true; println !false; }"),
        "true\nfalse\ntrue\nfalse\ntrue\ntrue\n"
    );
}

#[test]
fn strings_join_and_compare() {
    assert_eq!(
        output_of("fn main() void { let s: string = \"ab\"; println s + \"cd\"; println s == \"ab\"; println s != \"ab\"; }"),
        "abcd\ntrue\nfalse\n"
    );
}

#[test]
fn floating_point_numbers() {
    assert_eq!(
        output_of("fn main() void { println 1.5 + 2.25; println 0.1 + 0.2; println 2.0 < 1.5; println -2.5; println 99999999999999999999; }"),
        "3.75\n0.30000000000000004\nfalse\n-2.5\n100000000000000000000\n"
    );
}

#[test]
fn functions_take_arguments_and_return() {
    assert_eq!(
        output_of("fn add(a: int, b: int) int { return a + b; } fn main() void { println add(2, 3); }"),
        "5\n"
    );
}

#[test]
fn function_without_return_gives_nil() {
    assert_eq!(output_of("fn f() void { } fn main() void { println f(); }"), "nil\n");
    assert_eq!(output_of("fn f() void { return; } fn main() void { println f(); }"), "nil\n");
}

#[test]
fn function_values_print_their_name() {
    assert_eq!(output_of("fn f() void { } fn main() void { println f; }"), "<fn f>\n");
}

#[test]
fn main_sees_the_globals() {
    assert_eq!(output_of("let g: int = 4; fn main() void { println g * g; }"), "16\n");
}

#[test]
fn functions_see_only_their_parameters() {
    let r = run("let g: int = 1; fn f() int { return g; } fn main() void { println f(); }");
    assert!(matches!(r.error, Some(RuntimeError::UndefinedVariable(_, ref n)) if n == "g"));
    let r = run("fn f(n: int) int { return f(n); } fn main() void { println f(1); }");
    assert!(matches!(r.error, Some(RuntimeError::UndefinedFunction(_, ref n)) if n == "f"));
}

#[test]
fn if_and_else() {
    assert_eq!(
        output_of("fn main() void { if (1 < 2) { println \"yes\"; } else { println \"no\"; } if (false) { println 1; } }"),
        "yes\n"
    );
}

#[test]
fn blocks_share_the_enclosing_scope() {
    assert_eq!(
        output_of("fn main() void { if (true) { let x: int = 3; } println x; }"),
        "3\n"
    );
}

#[test]
fn assignment_changes_a_bound_name_and_ignores_others() {
    assert_eq!(output_of("fn main() void { let x: int = 1; x = x + 1; y = 5; println x; }"), "2\n");
}

#[test]
fn while_with_false_condition_does_nothing() {
    assert_eq!(output_of("fn main() void { while (1 > 2) { println 1; } println 0; }"), "0\n");
}

#[test]
fn while_condition_is_evaluated_once() {
    let r = run_with("fn main() void { let i: int = 0; while (i < 3) { i = i + 1; println i; } }", 5);
    assert_eq!(r.output, "1\n2\n3\n4\n5\n");
    assert!(matches!(r.error, Some(RuntimeError::StepLimit)));
}

#[test]
fn return_leaves_a_loop() {
    assert_eq!(
        output_of("fn f(n: int) int { let i: int = 0; while (true) { i = i + n; if (i > 10) { return i; } } } fn main() void { println f(4); }"),
        "12\n"
    );
}

#[test]
fn larger_budget_gives_the_same_run() {
    let src = "fn f(n: int) int { let i: int = 0; while (true) { i = i + n; if (i > 10) { return i; } } } fn main() void { println f(4); }";
    let small = run_with(src, 5);
    let large = run_with(src, 1000000);
    assert_eq!(small.output, large.output);
    assert!(small.error.is_none() && large.error.is_none());
}

#[test]
fn budget_limits_calls() {
    let r = run_with("fn f() int { return 1; } fn main() void { println f(); }", 0);
    assert!(matches!(r.error, Some(RuntimeError::StepLimit)));
    assert_eq!(r.output, "");
}

#[test]
fn output_before_an_error_is_kept() {
    let r = run("fn main() void { println 1; println 1 / 0; }");
    assert_eq!(r.output, "1\n");
    assert!(matches!(r.error, Some(RuntimeError::DivisionByZero(ref t)) if t.kind == TokenKind::Div));
}

#[test]
fn remainder_by_zero() {
    let r = run("fn main() void { println 1 % 0; }");
    assert!(matches!(r.error, Some(RuntimeError::DivisionByZero(ref t)) if t.kind == TokenKind::Modulo));
}

#[test]
fn integer_overflow() {
    let r = run("fn main() void { println 9223372036854775807 + 1; }");
    assert!(matches!(r.error, Some(RuntimeError::Overflow(ref t)) if t.kind == TokenKind::Plus));
    let r = run("fn main() void { let m: int = 0 - 9223372036854775807 - 1; println m / -1; }");
    assert!(matches!(r.error, Some(RuntimeError::Overflow(ref t)) if t.kind == TokenKind::Div));
}

#[test]
fn invalid_number_literal() {
    let r = run("fn main() void { println 1.2.3; }");
    assert!(matches!(r.error, Some(RuntimeError::InvalidNumber(ref t)) if t.kind == TokenKind::Number("1.2.3".to_string())));
}

#[test]
fn operators_on_the_wrong_values() {
    let r = run("fn main() void { println !1; }");
    assert!(matches!(r.error, Some(RuntimeError::BadOperand(_, Value::Int(1)))));
    let r = run("fn main() void { println -true; }");
    assert!(matches!(r.error, Some(RuntimeError::BadOperand(_, Value::Bool(true)))));
    let r = run("fn main() void { println 1 + \"a\"; }");
    assert!(matches!(r.error, Some(RuntimeError::OperandTypes(_, ref a, ref b)) if a == "int" && b == "string"));
    let r = run("fn main() void { println \"a\" < \"b\"; }");
    assert!(matches!(r.error, Some(RuntimeError::StringOperator(ref t)) if t.kind == TokenKind::Less));
    let r = run("fn main() void { println 1 && 2; }");
    assert!(matches!(r.error, Some(RuntimeError::OperandTypes(ref t, _, _)) if t.kind == TokenKind::And));
}

#[test]
fn conditions_must_be_boolean() {
    let r = run("fn main() void { if (1) { } }");
    assert!(matches!(r.error, Some(RuntimeError::NotBoolean(_))));
    let r = run("fn main() void { while (\"x\") { } }");
    assert!(matches!(r.error, Some(RuntimeError::NotBoolean(_))));
}

#[test]
fn argument_counts_must_match() {
    let r = run("fn f(a: int) int { return a; } fn main() void { println f(); }");
    assert!(matches!(r.error, Some(RuntimeError::TooFewArguments(_, ref n, 1, 0)) if n == "f"));
    let r = run("fn f(a: int) int { return a; } fn main() void { println f(1, 2); }");
    assert!(matches!(r.error, Some(RuntimeError::TooManyArguments(_, ref n, 1, 2)) if n == "f"));
}

#[test]
fn void_parameters_and_variables() {
    let r = run("fn f(a: void) int { return 1; } fn main() void { println f(1); }");
    assert!(matches!(r.error, Some(RuntimeError::VoidParameter(_, ref n)) if n == "a"));
    let r = run("let x: void = 1;");
    assert!(matches!(r.error, Some(RuntimeError::VoidVariable(_, ref n)) if n == "x"));
}

#[test]
fn calling_what_is_not_a_function() {
    let r = run("fn main() void { let x: int = 1; println x(); }");
    assert!(matches!(r.error, Some(RuntimeError::NotAFunction(_, ref n)) if n == "x"));
}

#[test]
fn undefined_names() {
    let r = run("fn main() void { println y; }");
    assert!(matches!(r.error, Some(RuntimeError::UndefinedVariable(ref t, ref n)) if n == "y" && t.pos == (1, 26)));
    let r = run("fn main() void { g(); }");
    assert!(matches!(r.error, Some(RuntimeError::UndefinedFunction(_, ref n)) if n == "g"));
}

#[test]
fn redefinitions() {
    let r = run("let x: int = 1; let x: int = 2;");
    assert!(matches!(r.error, Some(RuntimeError::RedefinedVariable(_, ref n)) if n == "x"));
    let r = run("fn f() void { } fn f() void { }");
    assert!(matches!(r.error, Some(RuntimeError::RedefinedFunction(_, ref n)) if n == "f"));
}

#[test]
fn only_declarations_at_top_level() {
    let r = run("println 1;");
    assert!(matches!(r.error, Some(RuntimeError::TopLevelStatement(ref t)) if t.kind == TokenKind::Number("1".to_string())));
}

#[test]
fn main_must_exist_and_be_a_function() {
    let r = run("fn f() void { }");
    assert!(matches!(r.error, Some(RuntimeError::MainNotFound)));
    let r = run("let main: int = 1;");
    assert!(matches!(r.error, Some(RuntimeError::MainNotFunction)));
}

#[test]
fn running_twice_redeclares() {
    let mut it = interpreter("fn main() void { println 1; }");
    let first = it.interpret(&floats, 10);
    assert_eq!(first.output, "1\n");
    assert!(first.error.is_none());
    let second = it.interpret(&floats, 10);
    assert!(matches!(second.error, Some(RuntimeError::RedefinedFunction(_, ref n)) if n == "main"));
}

#[test]
fn declarations_run_in_order() {
    let r = run("let a: int = 1; let b: int = a + 1; fn main() void { println b; }");
    assert_eq!(r.output, "2\n");
    let r = run("let b: int = a + 1; let a: int = 1; fn main() void { }");
    assert!(matches!(r.error, Some(RuntimeError::UndefinedVariable(_, ref n)) if n == "a"));
}

#[test]
fn break_ends_a_loop() {
    assert_eq!(
        output_of("fn main() void { let i: int = 0; while (true) { i = i + 1; if (i > 3) { break; } println i; } println 0; }"),
        "1\n2\n3\n0\n"
    );
}

#[test]
fn continue_goes_to_the_next_turn() {
    assert_eq!(
        output_of("fn main() void { let i: int = 0; while (true) { i = i + 1; if (i > 5) { break; } if (i % 2 == 0) { continue; } println i; } }"),
        "1\n3\n5\n"
    );
}

#[test]
fn break_ends_only_the_innermost_loop() {
    assert_eq!(
        output_of("fn main() void { let i: int = 0; let j: int = 0; while (true) { i = i + 1; if (i > 2) { break; } j = 0; while (true) { j = j + 1; if (j > 2) { break; } } println i + j; } }"),
        "4\n5\n"
    );
}

#[test]
fn break_outside_a_loop() {
    let r = run("fn f() int { break; } fn main() void { println 1; f(); }");
    assert_eq!(r.output, "1\n");
    assert!(matches!(r.error, Some(RuntimeError::BreakOutsideLoop(ref t)) if t.kind == TokenKind::Break));
    let r = run("fn main() void { continue; println 1; }");
    assert_eq!(r.output, "");
    assert!(matches!(r.error, Some(RuntimeError::ContinueOutsideLoop(_))));
}

#[test]
fn block_statement_runs_in_the_same_scope() {
    assert_eq!(output_of("fn main() void { { let x: int = 2; println x; } println x + 1; }"), "2\n3\n");
}

#[test]
fn running_twice_redefines_the_first_declaration() {
    let mut it = interpreter("let a: int = 1; fn main() void { let b: int = 2; println a + b; }");
    let first = it.interpret(&floats, 10);
    assert_eq!(first.output, "3\n");
    assert!(first.error.is_none());
    let second = it.interpret(&floats, 10);
    assert_eq!(second.output, "");
    assert!(matches!(second.error, Some(RuntimeError::RedefinedVariable(_, ref n)) if n == "a"));
}
