//! The messages that errors are reported with: where the error is, in the form
//! `file:line:column`, then what went wrong.
use vstd::prelude::*;

use crate::format::{bold_start, red_bold_start, style_reset};
use crate::grammar::ParseError;
use crate::interpreter::RuntimeError;
use crate::lexer::LexError;
use crate::semantics::ErrorV;
use crate::text::push_char;
use crate::token::{kind_text, KindView, Token};
use crate::value::{answers_floats, display, nat_text, oracle_of, push_nat_text, FloatAnswer, FloatOracle, FloatQuery};

verus! {

/// The label that starts an error message: `error` in bold bright red.
pub open spec fn error_label() -> Seq<char> {
    red_bold_start() + "error"@ + style_reset()
}

/// A name in bold, between single quotes.
pub open spec fn bold_quoted(name: Seq<char>) -> Seq<char> {
    "'"@ + bold_start() + name + style_reset() + "'"@
}

/// Where a token stands: `file:line:column`.
pub open spec fn position_text(t: Token) -> Seq<char> {
    t.origin_file@ + ":"@ + nat_text(t.pos.0 as nat) + ":"@ + nat_text(t.pos.1 as nat)
}

/// A message that names a token's text between a prefix and a suffix.
pub open spec fn with_kind(prefix: Seq<char>, k: KindView, suffix: Seq<char>) -> Seq<char> {
    prefix + kind_text(k) + suffix
}

/// A message that names a name in bold quotes between a prefix and a suffix.
pub open spec fn with_name(prefix: Seq<char>, name: Seq<char>, suffix: Seq<char>) -> Seq<char> {
    prefix + bold_quoted(name) + suffix
}

/// A message about the number of arguments of a call.
pub open spec fn count_message(prefix: Seq<char>, name: Seq<char>, expected: nat, have: nat) -> Seq<
    char,
> {
    with_name(prefix, name, ". expected "@) + nat_text(expected) + ", have "@ + nat_text(have)
}

/// What a runtime error says went wrong. For the errors that stop the program as a
/// panic would, the text is the panic's.
pub open spec fn message_text(fo: FloatOracle, e: ErrorV) -> Seq<char> {
    match e {
        ErrorV::TopLevelStatement(_) => "expected function or variable declarations at top-level"@,
        ErrorV::MainNotFound => with_name(""@, "main"@, " function not found"@),
        ErrorV::MainNotFunction => with_name("found "@, "main"@, ", but it's not a function"@),
        ErrorV::InvalidNumber(t) => with_kind("invalid number literal '"@, t.kind@, "'"@),
        ErrorV::BadOperand(t, v) => with_kind("cannot use '"@, t.kind@, "' on value "@) + display(
            fo,
            v,
        ),
        ErrorV::NotUnary(t) => with_kind(""@, t.kind@, " is not a unary expression"@),
        ErrorV::UnknownOperator(t) => with_kind("unknown operator '"@, t.kind@, "'"@),
        ErrorV::StringOperator(t) => with_kind("operator '"@, t.kind@, "' is not usable on string"@),
        ErrorV::LogicalOperator(t) => with_kind(
            "operator '"@,
            t.kind@,
            "' is not usable in logical expressions"@,
        ),
        ErrorV::OperandTypes(t, l, r) => with_kind("cannot use operator '"@, t.kind@, "' between '"@)
            + l + "' and '"@ + r + "'"@,
        ErrorV::UndefinedFunction(_, n) => with_name("undefined function "@, n, ""@),
        ErrorV::TooFewArguments(_, n, p, a) => count_message("too few arguments to function "@, n, p, a),
        ErrorV::TooManyArguments(_, n, p, a) => count_message("too many arguments to function "@, n, p, a),
        ErrorV::VoidParameter(_, n) => with_name("type of parameter "@, n, " cannot be void."@),
        ErrorV::NotAFunction(_, n) => with_name(""@, n, " is not a function"@),
        ErrorV::UndefinedVariable(_, n) => with_name("undefined variable "@, n, ""@),
        ErrorV::VoidVariable(_, n) => with_name("type of "@, n, " cannot be void"@),
        ErrorV::RedefinedVariable(_, n) => with_name("redefinition of variable "@, n, ""@),
        ErrorV::NotBoolean(_) => "expected boolean expression"@,
        ErrorV::RedefinedFunction(_, n) => with_name("redefinition of function "@, n, ""@),
        ErrorV::Overflow(t) => match t.kind@ {
            KindView::Plus => "attempt to add with overflow"@,
            KindView::Minus => "attempt to subtract with overflow"@,
            KindView::Mul => "attempt to multiply with overflow"@,
            KindView::Div => "attempt to divide with overflow"@,
            _ => "attempt to calculate the remainder with overflow"@,
        },
        ErrorV::NegationOverflow(_) => "attempt to negate with overflow"@,
        ErrorV::DivisionByZero(t) => match t.kind@ {
            KindView::Modulo => "attempt to calculate the remainder with a divisor of zero"@,
            _ => "attempt to divide by zero"@,
        },
        ErrorV::BadStringLiteral(t) => with_kind("cannot cut the quotes off the string literal "@, t.kind@, ""@),
        ErrorV::Unreachable => "internal error: entered unreachable code"@,
        ErrorV::MissingToken => "index out of bounds: the len is 0 but the index is 0"@,
        ErrorV::StepLimit => "the program ran out of steps"@,
        ErrorV::BreakOutsideLoop(_) => "'break' outside of a loop"@,
        ErrorV::ContinueOutsideLoop(_) => "'continue' outside of a loop"@,
    }
}

/// Whether an error stops the program as a panic would, rather than with a report.
pub open spec fn is_panic_error(e: ErrorV) -> bool {
    match e {
        ErrorV::Overflow(_) => true,
        ErrorV::NegationOverflow(_) => true,
        ErrorV::DivisionByZero(_) => true,
        ErrorV::BadStringLiteral(_) => true,
        ErrorV::Unreachable => true,
        ErrorV::MissingToken => true,
        _ => false,
    }
}

/// The token a reported error is placed at, if it is placed at one.
pub open spec fn error_token(e: ErrorV) -> Option<Token> {
    match e {
        ErrorV::TopLevelStatement(t) => Some(t),
        ErrorV::InvalidNumber(t) => Some(t),
        ErrorV::BadOperand(t, _) => Some(t),
        ErrorV::NotUnary(t) => Some(t),
        ErrorV::UnknownOperator(t) => Some(t),
        ErrorV::StringOperator(t) => Some(t),
        ErrorV::LogicalOperator(t) => Some(t),
        ErrorV::OperandTypes(t, _, _) => Some(t),
        ErrorV::UndefinedFunction(t, _) => Some(t),
        ErrorV::TooFewArguments(t, _, _, _) => Some(t),
        ErrorV::TooManyArguments(t, _, _, _) => Some(t),
        ErrorV::VoidParameter(t, _) => Some(t),
        ErrorV::NotAFunction(t, _) => Some(t),
        ErrorV::UndefinedVariable(t, _) => Some(t),
        ErrorV::VoidVariable(t, _) => Some(t),
        ErrorV::RedefinedVariable(t, _) => Some(t),
        ErrorV::NotBoolean(t) => Some(t),
        ErrorV::RedefinedFunction(t, _) => Some(t),
        ErrorV::BreakOutsideLoop(t) => Some(t),
        ErrorV::ContinueOutsideLoop(t) => Some(t),
        _ => None,
    }
}

/// The line that reports a runtime error: its position where it has one, the error
/// label and the message.
pub open spec fn report_text(fo: FloatOracle, e: ErrorV) -> Seq<char> {
    match error_token(e) {
        Some(t) => position_text(t) + ": "@ + error_label() + ": "@ + message_text(fo, e),
        None => error_label() + ": "@ + message_text(fo, e),
    }
}

/// The line that reports a lexer error in the file `file`.
pub open spec fn lex_report_text(file: Seq<char>, e: LexError) -> Seq<char> {
    match e {
        LexError::BadCharLiteral { line, column, found } => file + ":"@ + nat_text(line as nat) + ":"@
            + nat_text(column as nat) + ": "@ + error_label() + ": expected one character, got '"@
            + seq![found] + "'"@,
        LexError::UnterminatedString { line, column } => file + ":"@ + nat_text(line as nat) + ":"@
            + nat_text(column as nat) + ": "@ + error_label() + ": unterminated string"@,
    }
}

/// The line that reports a parser error.
pub open spec fn parse_report_text(e: ParseError) -> Seq<char> {
    match e {
        ParseError::Unexpected { expected, found } => position_text(found) + ": "@ + error_label()
            + ": expected "@ + expected@ + " but got "@ + kind_text(found.kind@),
        ParseError::Missing { message, found } => position_text(found) + " "@ + message@,
        ParseError::Invalid { message, at } => position_text(at) + " "@ + error_label() + ": "@
            + message@,
    }
}

/// Appends the error label.
fn push_error_label(out: &mut String)
    ensures
        final(out)@ == old(out)@ + error_label(),
{
    out.append("\x1b[1;91m");
    out.append("error");
    out.append("\x1b[0m");
    assert(final(out)@ =~= old(out)@ + error_label());
}

/// Appends a name in bold quotes.
fn push_bold_quoted(out: &mut String, name: &str)
    ensures
        final(out)@ == old(out)@ + bold_quoted(name@),
{
    out.append("'");
    out.append("\x1b[1m");
    out.append(name);
    out.append("\x1b[0m");
    out.append("'");
    assert(final(out)@ =~= old(out)@ + bold_quoted(name@));
}

/// Appends where a token stands.
fn push_position(out: &mut String, t: &Token)
    ensures
        final(out)@ == old(out)@ + position_text(*t),
{
    out.append(t.origin_file.as_str());
    out.append(":");
    push_nat_text(out, t.pos.0 as u64);
    out.append(":");
    push_nat_text(out, t.pos.1 as u64);
    assert(final(out)@ =~= old(out)@ + position_text(*t));
}

/// A message naming a token's text between `prefix` and `suffix`.
fn kind_message(prefix: &str, t: &Token, suffix: &str) -> (r: String)
    ensures
        r@ == with_kind(prefix@, t.kind@, suffix@),
{
    let mut s = String::from_str(prefix);
    let k = t.kind.text();
    s.append(k.as_str());
    s.append(suffix);
    s
}

/// A message naming a name in bold quotes between `prefix` and `suffix`.
fn name_message(prefix: &str, name: &str, suffix: &str) -> (r: String)
    ensures
        r@ == with_name(prefix@, name@, suffix@),
{
    let mut s = String::from_str(prefix);
    push_bold_quoted(&mut s, name);
    s.append(suffix);
    assert(s@ =~= with_name(prefix@, name@, suffix@));
    s
}

/// A message about the number of arguments of a call.
fn count_text(prefix: &str, name: &str, expected: usize, have: usize) -> (r: String)
    ensures
        r@ == count_message(prefix@, name@, expected as nat, have as nat),
{
    let mut s = name_message(prefix, name, ". expected ");
    push_nat_text(&mut s, expected as u64);
    s.append(", have ");
    push_nat_text(&mut s, have as u64);
    s
}

impl RuntimeError {
    /// What went wrong, as the message reporting this error says it.
    pub fn message<F: Fn(FloatQuery) -> FloatAnswer>(&self, floats: &F) -> (r: String)
        requires
            answers_floats(floats),
        ensures
            r@ == message_text(oracle_of(floats), self@),
    {
        match self {
            RuntimeError::TopLevelStatement(_) => String::from_str(
                "expected function or variable declarations at top-level",
            ),
            RuntimeError::MainNotFound => name_message("", "main", " function not found"),
            RuntimeError::MainNotFunction => name_message("found ", "main", ", but it's not a function"),
            RuntimeError::InvalidNumber(t) => kind_message("invalid number literal '", t, "'"),
            RuntimeError::BadOperand(t, v) => {
                let mut s = kind_message("cannot use '", t, "' on value ");
                v.show(floats, &mut s);
                s
            },
            RuntimeError::NotUnary(t) => kind_message("", t, " is not a unary expression"),
            RuntimeError::UnknownOperator(t) => kind_message("unknown operator '", t, "'"),
            RuntimeError::StringOperator(t) => kind_message("operator '", t, "' is not usable on string"),
            RuntimeError::LogicalOperator(t) => kind_message(
                "operator '",
                t,
                "' is not usable in logical expressions",
            ),
            RuntimeError::OperandTypes(t, l, r) => {
                let mut s = kind_message("cannot use operator '", t, "' between '");
                s.append(l.as_str());
                s.append("' and '");
                s.append(r.as_str());
                s.append("'");
                s
            },
            RuntimeError::UndefinedFunction(_, n) => name_message("undefined function ", n.as_str(), ""),
            RuntimeError::TooFewArguments(_, n, p, a) => count_text(
                "too few arguments to function ",
                n.as_str(),
                *p,
                *a,
            ),
            RuntimeError::TooManyArguments(_, n, p, a) => count_text(
                "too many arguments to function ",
                n.as_str(),
                *p,
                *a,
            ),
            RuntimeError::VoidParameter(_, n) => name_message(
                "type of parameter ",
                n.as_str(),
                " cannot be void.",
            ),
            RuntimeError::NotAFunction(_, n) => name_message("", n.as_str(), " is not a function"),
            RuntimeError::UndefinedVariable(_, n) => name_message("undefined variable ", n.as_str(), ""),
            RuntimeError::VoidVariable(_, n) => name_message("type of ", n.as_str(), " cannot be void"),
            RuntimeError::RedefinedVariable(_, n) => name_message(
                "redefinition of variable ",
                n.as_str(),
                "",
            ),
            RuntimeError::NotBoolean(_) => String::from_str("expected boolean expression"),
            RuntimeError::RedefinedFunction(_, n) => name_message(
                "redefinition of function ",
                n.as_str(),
                "",
            ),
            RuntimeError::Overflow(t) => match &t.kind {
                crate::token::TokenKind::Plus => String::from_str("attempt to add with overflow"),
                crate::token::TokenKind::Minus => String::from_str("attempt to subtract with overflow"),
                crate::token::TokenKind::Mul => String::from_str("attempt to multiply with overflow"),
                crate::token::TokenKind::Div => String::from_str("attempt to divide with overflow"),
                _ => String::from_str("attempt to calculate the remainder with overflow"),
            },
            RuntimeError::NegationOverflow(_) => String::from_str("attempt to negate with overflow"),
            RuntimeError::DivisionByZero(t) => match &t.kind {
                crate::token::TokenKind::Modulo => String::from_str(
                    "attempt to calculate the remainder with a divisor of zero",
                ),
                _ => String::from_str("attempt to divide by zero"),
            },
            RuntimeError::BadStringLiteral(t) => kind_message(
                "cannot cut the quotes off the string literal ",
                t,
                "",
            ),
            RuntimeError::Unreachable => String::from_str("internal error: entered unreachable code"),
            RuntimeError::MissingToken => String::from_str(
                "index out of bounds: the len is 0 but the index is 0",
            ),
            RuntimeError::StepLimit => String::from_str("the program ran out of steps"),
            RuntimeError::BreakOutsideLoop(_) => String::from_str("'break' outside of a loop"),
            RuntimeError::ContinueOutsideLoop(_) => String::from_str("'continue' outside of a loop"),
        }
    }

    /// Whether this error stops the program as a panic would, rather than with a report.
    pub fn is_panic(&self) -> (r: bool)
        ensures
            r == is_panic_error(self@),
    {
        match self {
            RuntimeError::Overflow(_) => true,
            RuntimeError::NegationOverflow(_) => true,
            RuntimeError::DivisionByZero(_) => true,
            RuntimeError::BadStringLiteral(_) => true,
            RuntimeError::Unreachable => true,
            RuntimeError::MissingToken => true,
            _ => false,
        }
    }

    /// The token this error is placed at, if it is placed at one.
    pub fn token(&self) -> (r: Option<&Token>)
        ensures
            match r {
                Some(t) => error_token(self@) == Some(*t),
                None => error_token(self@) is None,
            },
    {
        match self {
            RuntimeError::TopLevelStatement(t) => Some(t),
            RuntimeError::InvalidNumber(t) => Some(t),
            RuntimeError::BadOperand(t, _) => Some(t),
            RuntimeError::NotUnary(t) => Some(t),
            RuntimeError::UnknownOperator(t) => Some(t),
            RuntimeError::StringOperator(t) => Some(t),
            RuntimeError::LogicalOperator(t) => Some(t),
            RuntimeError::OperandTypes(t, _, _) => Some(t),
            RuntimeError::UndefinedFunction(t, _) => Some(t),
            RuntimeError::TooFewArguments(t, _, _, _) => Some(t),
            RuntimeError::TooManyArguments(t, _, _, _) => Some(t),
            RuntimeError::VoidParameter(t, _) => Some(t),
            RuntimeError::NotAFunction(t, _) => Some(t),
            RuntimeError::UndefinedVariable(t, _) => Some(t),
            RuntimeError::VoidVariable(t, _) => Some(t),
            RuntimeError::RedefinedVariable(t, _) => Some(t),
            RuntimeError::NotBoolean(t) => Some(t),
            RuntimeError::RedefinedFunction(t, _) => Some(t),
            RuntimeError::BreakOutsideLoop(t) => Some(t),
            RuntimeError::ContinueOutsideLoop(t) => Some(t),
            _ => None,
        }
    }

    /// The line that reports this error.
    pub fn report<F: Fn(FloatQuery) -> FloatAnswer>(&self, floats: &F) -> (r: String)
        requires
            answers_floats(floats),
        ensures
            r@ == report_text(oracle_of(floats), self@),
    {
        let mut s = String::new();
        match self.token() {
            Some(t) => {
                push_position(&mut s, t);
                s.append(": ");
            },
            None => {},
        }
        push_error_label(&mut s);
        s.append(": ");
        let m = self.message(floats);
        s.append(m.as_str());
        assert(s@ =~= report_text(oracle_of(floats), self@));
        s
    }
}

/// The line that reports a lexer error in the file `file`.
pub fn lex_report(file: &str, e: &LexError) -> (r: String)
    ensures
        r@ == lex_report_text(file@, *e),
{
    let mut s = String::from_str(file);
    let (line, column) = match e {
        LexError::BadCharLiteral { line, column, .. } => (*line, *column),
        LexError::UnterminatedString { line, column } => (*line, *column),
    };
    s.append(":");
    push_nat_text(&mut s, line as u64);
    s.append(":");
    push_nat_text(&mut s, column as u64);
    s.append(": ");
    push_error_label(&mut s);
    match e {
        LexError::BadCharLiteral { found, .. } => {
            s.append(": expected one character, got '");
            push_char(&mut s, *found);
            s.append("'");
        },
        LexError::UnterminatedString { .. } => {
            s.append(": unterminated string");
        },
    }
    assert(s@ =~= lex_report_text(file@, *e));
    s
}

/// The line that reports a parser error.
pub fn parse_report(e: &ParseError) -> (r: String)
    ensures
        r@ == parse_report_text(*e),
{
    let mut s = String::new();
    match e {
        ParseError::Unexpected { expected, found } => {
            push_position(&mut s, found);
            s.append(": ");
            push_error_label(&mut s);
            s.append(": expected ");
            s.append(expected);
            s.append(" but got ");
            let k = found.kind.text();
            s.append(k.as_str());
        },
        ParseError::Missing { message, found } => {
            push_position(&mut s, found);
            s.append(" ");
            s.append(message);
        },
        ParseError::Invalid { message, at } => {
            push_position(&mut s, at);
            s.append(" ");
            push_error_label(&mut s);
            s.append(": ");
            s.append(message);
        },
    }
    assert(s@ =~= parse_report_text(*e));
    s
}

} // verus!
