//! The meaning of programs: what evaluating an expression, executing a statement and
//! running a whole program give, stated over the models of syntax trees and values.
//!
//! A budget bounds the calls and loop turns: a call runs its body with one unit less than
//! the caller had, and each turn of a loop runs with one unit less than the turn before.
//! So the budget bounds how deeply calls nest plus how many turns the loops around them
//! take; calls one after another each get the same budget. Where it runs out, the run
//! stops with [`ErrorV::StepLimit`].
use vstd::prelude::*;

use crate::ast::{expr_token, stmt_has_token, stmt_token, ExprV, StmtV};
use crate::number::parse_i64_spec;
use crate::text::is_ascii_char;
use crate::token::{KindView, Token};
use crate::value::{
    answer_bits,
    answer_truth,
    display,
    typ_text,
    FloatAnswerV,
    FloatArith,
    FloatCompare,
    FloatOracle,
    FloatQueryV,
    ValueV,
};

verus! {

/// The names in scope and their values.
pub type Bindings = Map<Seq<char>, ValueV>;

/// Why a run stops before its end: the model of a runtime error.
pub enum ErrorV {
    /// A statement other than a declaration at the top level.
    TopLevelStatement(Token),
    /// No `main` was declared.
    MainNotFound,
    /// `main` was declared, but not as a function.
    MainNotFunction,
    /// A number literal that denotes no number.
    InvalidNumber(Token),
    /// A string literal too short, or with a character at either end that is not ASCII.
    BadStringLiteral(Token),
    /// `-` or `!` on a value it does not apply to.
    BadOperand(Token, ValueV),
    /// A unary expression whose operator is neither `-` nor `!`.
    NotUnary(Token),
    /// An operator that does not apply to two numbers.
    UnknownOperator(Token),
    /// An operator that does not apply to two strings.
    StringOperator(Token),
    /// An operator that is neither `&&` nor `||` between two booleans.
    LogicalOperator(Token),
    /// An operator between values of types it does not combine: the types' names.
    OperandTypes(Token, Seq<char>, Seq<char>),
    /// A call of a name that is not bound.
    UndefinedFunction(Token, Seq<char>),
    /// A call with fewer arguments than parameters: the number of each.
    TooFewArguments(Token, Seq<char>, nat, nat),
    /// A call with more arguments than parameters: the number of each.
    TooManyArguments(Token, Seq<char>, nat, nat),
    /// A parameter of type `void`.
    VoidParameter(Token, Seq<char>),
    /// A call of a name bound to something other than a function.
    NotAFunction(Token, Seq<char>),
    /// A name that is not bound.
    UndefinedVariable(Token, Seq<char>),
    /// A variable declared of type `void`.
    VoidVariable(Token, Seq<char>),
    /// A variable declared where its name is bound already.
    RedefinedVariable(Token, Seq<char>),
    /// A condition that is not a boolean.
    NotBoolean(Token),
    /// A function declared where its name is bound already.
    RedefinedFunction(Token, Seq<char>),
    /// Integer arithmetic whose result does not fit in an `i64`.
    Overflow(Token),
    /// The negation of the least `i64`, which has no negation in range.
    NegationOverflow(Token),
    /// Integer division or remainder by zero.
    DivisionByZero(Token),
    /// A tree that the parser does not build: an assignment inside an expression, a
    /// call of something other than a name, a literal of another kind, and the like.
    Unreachable,
    /// A statement at the top level that has no token to be reported at.
    MissingToken,
    /// The budget of calls and loop turns ran out.
    StepLimit,
    /// A `break` that ends the body of a function, or of `main`, outside any loop.
    BreakOutsideLoop(Token),
    /// A `continue` that ends the body of a function, or of `main`, outside any loop.
    ContinueOutsideLoop(Token),
}

/// How a statement ends: on to the next one, returning a value, or leaving the turn of
/// the innermost loop (`break` ends the loop, `continue` goes on to its next turn).
pub enum FlowV {
    Normal,
    Return(ValueV),
    Break(Token),
    Continue(Token),
}

/// The error of a `break` or `continue` that leaves a function's body, where no loop
/// takes it.
pub open spec fn stray_flow(f: FlowV) -> Option<ErrorV> {
    match f {
        FlowV::Break(t) => Some(ErrorV::BreakOutsideLoop(t)),
        FlowV::Continue(t) => Some(ErrorV::ContinueOutsideLoop(t)),
        _ => None,
    }
}

/// What a piece of a program gives: the text it prints, then its result or the error
/// it stops on.
pub struct Outcome<T> {
    pub text: Seq<char>,
    pub result: Result<T, ErrorV>,
}

/// An outcome that stops on `e` after printing `text`.
pub open spec fn failed<T>(text: Seq<char>, e: ErrorV) -> Outcome<T> {
    Outcome { text, result: Err(e) }
}

/// `o`, after `text` was printed.
pub open spec fn after<T>(text: Seq<char>, o: Outcome<T>) -> Outcome<T> {
    Outcome { text: text + o.text, result: o.result }
}

/// The name a token carries, if it is a name.
pub open spec fn symbol_of(t: Token) -> Option<Seq<char>> {
    match t.kind@ {
        KindView::Symbol(s) => Some(s),
        _ => None,
    }
}

/// The type a declaration names, if its token names one.
pub open spec fn type_name_of(t: Token) -> Option<Seq<char>> {
    match t.kind@ {
        KindView::Symbol(s) => Some(s),
        KindView::PrimitiveType(s) => Some(s),
        _ => None,
    }
}

/// The integer result of an operation, or an overflow at `op`.
pub open spec fn checked_int(op: Token, r: Option<i64>) -> Result<ValueV, ErrorV> {
    match r {
        Some(v) => Ok(ValueV::Int(v)),
        None => Err(ErrorV::Overflow(op)),
    }
}

/// A binary operator on two integers, with Rust's `i64` arithmetic: division truncates,
/// the remainder takes the sign of the dividend, and a result out of range overflows.
pub open spec fn int_op(op: Token, a: i64, b: i64) -> Result<ValueV, ErrorV> {
    match op.kind@ {
        KindView::Plus => checked_int(op, a.checked_add(b)),
        KindView::Minus => checked_int(op, a.checked_sub(b)),
        KindView::Mul => checked_int(op, a.checked_mul(b)),
        KindView::Div => if b == 0 {
            Err(ErrorV::DivisionByZero(op))
        } else {
            checked_int(op, a.checked_div(b))
        },
        KindView::Modulo => if b == 0 {
            Err(ErrorV::DivisionByZero(op))
        } else {
            checked_int(op, a.checked_rem(b))
        },
        KindView::Less => Ok(ValueV::Bool(a < b)),
        KindView::LessEq => Ok(ValueV::Bool(a <= b)),
        KindView::Greater => Ok(ValueV::Bool(a > b)),
        KindView::GreaterEq => Ok(ValueV::Bool(a >= b)),
        KindView::Equals => Ok(ValueV::Bool(a == b)),
        KindView::NotEq => Ok(ValueV::Bool(a != b)),
        _ => Err(ErrorV::UnknownOperator(op)),
    }
}

/// The arithmetic operation an operator token stands for.
pub open spec fn arith_of(k: KindView) -> Option<FloatArith> {
    match k {
        KindView::Plus => Some(FloatArith::Add),
        KindView::Minus => Some(FloatArith::Sub),
        KindView::Mul => Some(FloatArith::Mul),
        KindView::Div => Some(FloatArith::Div),
        KindView::Modulo => Some(FloatArith::Rem),
        _ => None,
    }
}

/// The comparison an operator token stands for.
pub open spec fn compare_of(k: KindView) -> Option<FloatCompare> {
    match k {
        KindView::Less => Some(FloatCompare::Less),
        KindView::LessEq => Some(FloatCompare::LessEq),
        KindView::Greater => Some(FloatCompare::Greater),
        KindView::GreaterEq => Some(FloatCompare::GreaterEq),
        KindView::Equals => Some(FloatCompare::Equal),
        KindView::NotEq => Some(FloatCompare::NotEqual),
        _ => None,
    }
}

/// A binary operator on two floating-point numbers, as `fo` computes it.
pub open spec fn float_op(fo: FloatOracle, op: Token, a: u64, b: u64) -> Result<ValueV, ErrorV> {
    match arith_of(op.kind@) {
        Some(k) => Ok(ValueV::Float(answer_bits(fo(FloatQueryV::Arith(k, a, b))))),
        None => match compare_of(op.kind@) {
            Some(c) => Ok(ValueV::Bool(answer_truth(fo(FloatQueryV::Compare(c, a, b))))),
            None => Err(ErrorV::UnknownOperator(op)),
        },
    }
}

/// A binary operator on two values: integers with integers, numbers with numbers,
/// strings with strings (`+` joins them; `==` and `!=` compare them).
pub open spec fn binary_op(fo: FloatOracle, l: ValueV, op: Token, r: ValueV) -> Result<
    ValueV,
    ErrorV,
> {
    match (l, r) {
        (ValueV::Int(a), ValueV::Int(b)) => int_op(op, a, b),
        (ValueV::Float(a), ValueV::Float(b)) => float_op(fo, op, a, b),
        (ValueV::Str(a), ValueV::Str(b)) => match op.kind@ {
            KindView::Plus => Ok(ValueV::Str(a + b)),
            KindView::Equals => Ok(ValueV::Bool(a == b)),
            KindView::NotEq => Ok(ValueV::Bool(a != b)),
            _ => Err(ErrorV::StringOperator(op)),
        },
        _ => Err(ErrorV::OperandTypes(op, typ_text(l), typ_text(r))),
    }
}

/// `&&` or `||` on two booleans; both sides are always evaluated.
pub open spec fn logical_op(l: ValueV, op: Token, r: ValueV) -> Result<ValueV, ErrorV> {
    match (l, r) {
        (ValueV::Bool(a), ValueV::Bool(b)) => match op.kind@ {
            KindView::Or => Ok(ValueV::Bool(a || b)),
            KindView::And => Ok(ValueV::Bool(a && b)),
            _ => Err(ErrorV::LogicalOperator(op)),
        },
        _ => Err(ErrorV::OperandTypes(op, typ_text(l), typ_text(r))),
    }
}

/// `-` or `!` on a value.
pub open spec fn unary_op(fo: FloatOracle, op: Token, v: ValueV) -> Result<ValueV, ErrorV> {
    match op.kind@ {
        KindView::Minus => match v {
            ValueV::Int(i) => if i == i64::MIN {
                Err(ErrorV::NegationOverflow(op))
            } else {
                Ok(ValueV::Int((-i) as i64))
            },
            ValueV::Float(f) => Ok(ValueV::Float(answer_bits(fo(FloatQueryV::Negate(f))))),
            _ => Err(ErrorV::BadOperand(op, v)),
        },
        KindView::Not => match v {
            ValueV::Bool(b) => Ok(ValueV::Bool(!b)),
            _ => Err(ErrorV::BadOperand(op, v)),
        },
        _ => Err(ErrorV::NotUnary(op)),
    }
}

/// The text a string literal's token stands for: its text without the quote at each end.
/// Cutting them off needs two characters or more, each end being a single byte.
pub open spec fn string_literal(s: Seq<char>) -> Option<Seq<char>> {
    if s.len() >= 2 && is_ascii_char(s[0]) && is_ascii_char(s[s.len() - 1]) {
        Some(s.subrange(1, s.len() - 1))
    } else {
        None
    }
}

/// The value of a literal: a boolean, an integer where the text reads as an `i64`, else a
/// floating-point number where `fo` reads one, or a string.
pub open spec fn literal_value(fo: FloatOracle, t: Token) -> Result<ValueV, ErrorV> {
    match t.kind@ {
        KindView::False => Ok(ValueV::Bool(false)),
        KindView::True => Ok(ValueV::Bool(true)),
        KindView::Number(n) => match parse_i64_spec(n) {
            Some(x) => Ok(ValueV::Int(x)),
            None => match fo(FloatQueryV::Parse(n)) {
                FloatAnswerV::Number(b) => Ok(ValueV::Float(b)),
                _ => Err(ErrorV::InvalidNumber(t)),
            },
        },
        KindView::Str(s) => match string_literal(s) {
            Some(x) => Ok(ValueV::Str(x)),
            None => Err(ErrorV::BadStringLiteral(t)),
        },
        _ => Err(ErrorV::Unreachable),
    }
}

/// The value of a variable.
pub open spec fn variable_value(env: Bindings, t: Token) -> Result<ValueV, ErrorV> {
    match symbol_of(t) {
        Some(name) => if env.dom().contains(name) {
            Ok(env[name])
        } else {
            Err(ErrorV::UndefinedVariable(t, name))
        },
        None => Err(ErrorV::Unreachable),
    }
}

/// Binding one parameter to its argument: a parameter whose name token is not a name is
/// passed over; one of type `void` is an error.
pub open spec fn bind_one(env: Bindings, param: (Token, Token), arg: ValueV) -> Result<
    Bindings,
    ErrorV,
> {
    match symbol_of(param.0) {
        Some(name) => if param.1.kind@ == KindView::PrimitiveType("void"@) {
            Err(ErrorV::VoidParameter(param.0, name))
        } else {
            Ok(env.insert(name, arg))
        },
        None => Ok(env),
    }
}

/// Binding the parameters from the `i`-th on to their arguments, in order, over `env`.
pub open spec fn bind_params(
    env: Bindings,
    params: Seq<(Token, Token)>,
    args: Seq<ValueV>,
    i: nat,
) -> Result<Bindings, ErrorV>
    decreases params.len() - i,
{
    if i >= params.len() || i >= args.len() {
        Ok(env)
    } else {
        match bind_one(env, params[i as int], args[i as int]) {
            Ok(env2) => bind_params(env2, params, args, i + 1),
            Err(e) => Err(e),
        }
    }
}

/// What a call of `callee` with arguments `args` runs: the body of the function the name
/// is bound to, in an environment that holds its parameters alone.
pub open spec fn call_target(env: Bindings, callee: ExprV, args: Seq<ValueV>) -> Result<
    (Bindings, StmtV),
    ErrorV,
> {
    match callee {
        ExprV::Variable(t) => match symbol_of(t) {
            Some(name) => if !env.dom().contains(name) {
                Err(ErrorV::UndefinedFunction(t, name))
            } else {
                match env[name] {
                    ValueV::Function(_, params, body) => if args.len() < params.len() {
                        Err(ErrorV::TooFewArguments(t, name, params.len(), args.len()))
                    } else if args.len() > params.len() {
                        Err(ErrorV::TooManyArguments(t, name, params.len(), args.len()))
                    } else {
                        match bind_params(Map::empty(), params, args, 0) {
                            Ok(fenv) => Ok((fenv, body)),
                            Err(e) => Err(e),
                        }
                    },
                    _ => Err(ErrorV::NotAFunction(t, name)),
                }
            },
            None => Err(ErrorV::Unreachable),
        },
        _ => Err(ErrorV::Unreachable),
    }
}

/// The values of `args` from the `i`-th on, in order; `fuel` is the budget.
pub open spec fn eval_args(
    fo: FloatOracle,
    fuel: nat,
    env: Bindings,
    args: Seq<ExprV>,
    i: nat,
) -> Outcome<Seq<ValueV>>
    decreases fuel, 0int, args, args.len() - i,
{
    if i >= args.len() {
        Outcome { text: seq![], result: Ok(seq![]) }
    } else {
        let o = eval_expr(fo, fuel, env, args[i as int]);
        match o.result {
            Err(e) => failed(o.text, e),
            Ok(v) => {
                let rest = eval_args(fo, fuel, env, args, i + 1);
                Outcome {
                    text: o.text + rest.text,
                    result: match rest.result {
                        Ok(vs) => Ok(seq![v] + vs),
                        Err(e) => Err(e),
                    },
                }
            },
        }
    }
}

/// The value of an expression in `env`. Operands are evaluated left to right, both sides
/// of `&&` and `||` included; a call evaluates its arguments, then runs the body of the
/// function with one unit less of `fuel`.
pub open spec fn eval_expr(fo: FloatOracle, fuel: nat, env: Bindings, e: ExprV) -> Outcome<ValueV>
    decreases fuel, 0int, e, 0int,
{
    match e {
        ExprV::Binary(l, op, r) => {
            let lo = eval_expr(fo, fuel, env, *l);
            match lo.result {
                Err(x) => failed(lo.text, x),
                Ok(lv) => {
                    let ro = eval_expr(fo, fuel, env, *r);
                    match ro.result {
                        Err(x) => failed(lo.text + ro.text, x),
                        Ok(rv) => Outcome {
                            text: lo.text + ro.text,
                            result: binary_op(fo, lv, op, rv),
                        },
                    }
                },
            }
        },
        ExprV::Logical(l, op, r) => {
            let lo = eval_expr(fo, fuel, env, *l);
            match lo.result {
                Err(x) => failed(lo.text, x),
                Ok(lv) => {
                    let ro = eval_expr(fo, fuel, env, *r);
                    match ro.result {
                        Err(x) => failed(lo.text + ro.text, x),
                        Ok(rv) => Outcome {
                            text: lo.text + ro.text,
                            result: logical_op(lv, op, rv),
                        },
                    }
                },
            }
        },
        ExprV::Unary(op, x) => {
            let o = eval_expr(fo, fuel, env, *x);
            match o.result {
                Err(er) => failed(o.text, er),
                Ok(v) => Outcome { text: o.text, result: unary_op(fo, op, v) },
            }
        },
        ExprV::FuncCall(callee, args) => {
            let ao = eval_args(fo, fuel, env, args, 0);
            match ao.result {
                Err(x) => failed(ao.text, x),
                Ok(vals) => match call_target(env, *callee, vals) {
                    Err(x) => failed(ao.text, x),
                    Ok((fenv, body)) => if fuel == 0 {
                        failed(ao.text, ErrorV::StepLimit)
                    } else {
                        let bo = exec_stmt(fo, (fuel - 1) as nat, fenv, body);
                        Outcome {
                            text: ao.text + bo.text,
                            result: match bo.result {
                                Err(x) => Err(x),
                                Ok((_, FlowV::Return(v))) => Ok(v),
                                Ok((_, FlowV::Normal)) => Ok(ValueV::Nil),
                                Ok((_, FlowV::Break(t))) => Err(ErrorV::BreakOutsideLoop(t)),
                                Ok((_, FlowV::Continue(t))) => Err(ErrorV::ContinueOutsideLoop(t)),
                            },
                        }
                    },
                },
            }
        },
        ExprV::Literal(t) => Outcome { text: seq![], result: literal_value(fo, t) },
        ExprV::Variable(t) => Outcome { text: seq![], result: variable_value(env, t) },
        ExprV::Grouping(x) => eval_expr(fo, fuel, env, *x),
        ExprV::Assignment(_, _) => failed(seq![], ErrorV::Unreachable),
    }
}

/// Executing the statements of a block from the `i`-th on, until one returns or fails.
pub open spec fn exec_block(
    fo: FloatOracle,
    fuel: nat,
    env: Bindings,
    ss: Seq<StmtV>,
    i: nat,
) -> Outcome<(Bindings, FlowV)>
    decreases fuel, 1int, ss, ss.len() - i,
{
    if i >= ss.len() {
        Outcome { text: seq![], result: Ok((env, FlowV::Normal)) }
    } else {
        let o = exec_stmt(fo, fuel, env, ss[i as int]);
        match o.result {
            Ok((env2, FlowV::Normal)) => after(o.text, exec_block(fo, fuel, env2, ss, i + 1)),
            _ => o,
        }
    }
}

/// The turns of a loop whose condition held: the body runs again and again, each turn
/// with one unit less of `fuel`, until it returns, fails or breaks; `continue` goes on
/// to the next turn. The condition is not evaluated again.
pub open spec fn run_loop(fo: FloatOracle, fuel: nat, env: Bindings, body: StmtV) -> Outcome<
    (Bindings, FlowV),
>
    decreases fuel, 1int, body, 0int,
{
    if fuel == 0 {
        failed(seq![], ErrorV::StepLimit)
    } else {
        let o = exec_stmt(fo, (fuel - 1) as nat, env, body);
        match o.result {
            Ok((env2, FlowV::Normal)) => after(o.text, run_loop(fo, (fuel - 1) as nat, env2, body)),
            Ok((env2, FlowV::Continue(_))) => after(
                o.text,
                run_loop(fo, (fuel - 1) as nat, env2, body),
            ),
            Ok((env2, FlowV::Break(_))) => Outcome { text: o.text, result: Ok((env2, FlowV::Normal)) },
            _ => o,
        }
    }
}

/// What an assignment to `target` does: rebinds a name that is bound, and leaves the
/// environment as it is where the name is not bound.
pub open spec fn assign(env: Bindings, target: ExprV, v: ValueV) -> Result<(Bindings, FlowV), ErrorV> {
    match target {
        ExprV::Variable(t) => match symbol_of(t) {
            Some(name) => if env.dom().contains(name) {
                Ok((env.insert(name, v), FlowV::Normal))
            } else {
                Ok((env, FlowV::Normal))
            },
            None => Err(ErrorV::Unreachable),
        },
        _ => Err(ErrorV::Unreachable),
    }
}

/// The text a `print` or `println` writes.
pub open spec fn printed(fo: FloatOracle, v: ValueV, newline: bool) -> Seq<char> {
    if newline {
        display(fo, v).push('\n')
    } else {
        display(fo, v)
    }
}

/// Executing a statement in `env`: the environment it leaves and how it ends.
pub open spec fn exec_stmt(fo: FloatOracle, fuel: nat, env: Bindings, s: StmtV) -> Outcome<
    (Bindings, FlowV),
>
    decreases fuel, 1int, s, 0int,
{
    match s {
        StmtV::Return(_, e) => match e {
            Some(x) => {
                let o = eval_expr(fo, fuel, env, x);
                match o.result {
                    Err(er) => failed(o.text, er),
                    Ok(v) => Outcome { text: o.text, result: Ok((env, FlowV::Return(v))) },
                }
            },
            None => Outcome { text: seq![], result: Ok((env, FlowV::Return(ValueV::Nil))) },
        },
        StmtV::Expression(e) => match e {
            ExprV::Assignment(target, rhs) => {
                let o = eval_expr(fo, fuel, env, *rhs);
                match o.result {
                    Err(er) => failed(o.text, er),
                    Ok(v) => Outcome { text: o.text, result: assign(env, *target, v) },
                }
            },
            _ => {
                let o = eval_expr(fo, fuel, env, e);
                match o.result {
                    Err(er) => failed(o.text, er),
                    Ok(_) => Outcome { text: o.text, result: Ok((env, FlowV::Normal)) },
                }
            },
        },
        StmtV::Let(name_tk, typ_tk, e) => {
            let name = match symbol_of(name_tk) {
                Some(n) => n,
                None => seq![],
            };
            match type_name_of(typ_tk) {
                None => failed(seq![], ErrorV::Unreachable),
                Some(t) => if t == "void"@ {
                    failed(seq![], ErrorV::VoidVariable(typ_tk, name))
                } else {
                    let o = eval_expr(fo, fuel, env, e);
                    match o.result {
                        Err(er) => failed(o.text, er),
                        Ok(v) => if env.dom().contains(name) {
                            failed(o.text, ErrorV::RedefinedVariable(name_tk, name))
                        } else {
                            Outcome { text: o.text, result: Ok((env.insert(name, v), FlowV::Normal)) }
                        },
                    }
                },
            }
        },
        StmtV::Print(e, newline) => {
            let o = eval_expr(fo, fuel, env, e);
            match o.result {
                Err(er) => failed(o.text, er),
                Ok(v) => Outcome {
                    text: o.text + printed(fo, v, newline),
                    result: Ok((env, FlowV::Normal)),
                },
            }
        },
        StmtV::Block(ss) => exec_block(fo, fuel, env, ss, 0),
        StmtV::While(c, body) => {
            let o = eval_expr(fo, fuel, env, c);
            match o.result {
                Err(er) => failed(o.text, er),
                Ok(ValueV::Bool(x)) => if x {
                    after(o.text, run_loop(fo, fuel, env, *body))
                } else {
                    Outcome { text: o.text, result: Ok((env, FlowV::Normal)) }
                },
                Ok(_) => failed(o.text, ErrorV::NotBoolean(expr_token(c))),
            }
        },
        StmtV::If(c, then_branch, else_branch) => {
            let o = eval_expr(fo, fuel, env, c);
            match o.result {
                Err(er) => failed(o.text, er),
                Ok(ValueV::Bool(x)) => if x {
                    after(o.text, exec_stmt(fo, fuel, env, *then_branch))
                } else {
                    match else_branch {
                        Some(b) => after(o.text, exec_stmt(fo, fuel, env, *b)),
                        None => Outcome { text: o.text, result: Ok((env, FlowV::Normal)) },
                    }
                },
                Ok(_) => failed(o.text, ErrorV::NotBoolean(expr_token(c))),
            }
        },
        StmtV::Func(name_tk, params, _, body) => match symbol_of(name_tk) {
            Some(name) => if env.dom().contains(name) {
                failed(seq![], ErrorV::RedefinedFunction(name_tk, name))
            } else {
                Outcome {
                    text: seq![],
                    result: Ok((env.insert(name, ValueV::Function(name, params, *body)), FlowV::Normal)),
                }
            },
            None => failed(seq![], ErrorV::Unreachable),
        },
        StmtV::Break(t) => Outcome { text: seq![], result: Ok((env, FlowV::Break(t))) },
        StmtV::Continue(t) => Outcome { text: seq![], result: Ok((env, FlowV::Continue(t))) },
    }
}

/// Whether a statement may stand at the top level: a function or a variable declaration.
pub open spec fn is_declaration(s: StmtV) -> bool {
    s is Func || s is Let
}

/// Executing the top-level declarations from the `i`-th on; anything else there stops
/// the run, reported at its token.
pub open spec fn run_declarations(
    fo: FloatOracle,
    fuel: nat,
    env: Bindings,
    stmts: Seq<StmtV>,
    i: nat,
) -> Outcome<Bindings>
    decreases stmts.len() - i,
{
    if i >= stmts.len() {
        Outcome { text: seq![], result: Ok(env) }
    } else if !is_declaration(stmts[i as int]) {
        failed(
            seq![],
            if stmt_has_token(stmts[i as int]) {
                ErrorV::TopLevelStatement(stmt_token(stmts[i as int]))
            } else {
                ErrorV::MissingToken
            },
        )
    } else {
        let o = exec_stmt(fo, fuel, env, stmts[i as int]);
        match o.result {
            Err(e) => failed(o.text, e),
            Ok((env2, _)) => after(o.text, run_declarations(fo, fuel, env2, stmts, i + 1)),
        }
    }
}

/// Running a program over the global bindings `globals`: its declarations, then the body
/// of `main` in a copy of the globals. Gives the globals after the declarations.
pub open spec fn run_program(fo: FloatOracle, fuel: nat, globals: Bindings, stmts: Seq<StmtV>) -> Outcome<
    Bindings,
> {
    let d = run_declarations(fo, fuel, globals, stmts, 0);
    match d.result {
        Err(e) => failed(d.text, e),
        Ok(g) => if !g.dom().contains("main"@) {
            failed(d.text, ErrorV::MainNotFound)
        } else {
            match g["main"@] {
                ValueV::Function(_, _, body) => {
                    let o = exec_stmt(fo, fuel, g, body);
                    Outcome {
                        text: d.text + o.text,
                        result: match o.result {
                            Err(e) => Err(e),
                            Ok((_, f)) => match stray_flow(f) {
                                Some(e) => Err(e),
                                None => Ok(g),
                            },
                        },
                    }
                },
                _ => failed(d.text, ErrorV::MainNotFunction),
            }
        },
    }
}

/// Whether an outcome stopped because the budget ran out.
pub open spec fn out_of_fuel<T>(o: Outcome<T>) -> bool {
    o.result == Err::<T, ErrorV>(ErrorV::StepLimit)
}

/// An evaluation that did not run out of budget gives the same with a larger budget.
proof fn lemma_eval_fuel(fo: FloatOracle, f1: nat, f2: nat, env: Bindings, e: ExprV)
    requires
        f1 <= f2,
    ensures
        !out_of_fuel(eval_expr(fo, f1, env, e)) ==> eval_expr(fo, f2, env, e) == eval_expr(fo, f1, env, e),
    decreases f1, 0int, e, 0int,
{
    match e {
        ExprV::Binary(l, _, r) => {
            lemma_eval_fuel(fo, f1, f2, env, *l);
            lemma_eval_fuel(fo, f1, f2, env, *r);
        },
        ExprV::Logical(l, _, r) => {
            lemma_eval_fuel(fo, f1, f2, env, *l);
            lemma_eval_fuel(fo, f1, f2, env, *r);
        },
        ExprV::Unary(_, x) => {
            lemma_eval_fuel(fo, f1, f2, env, *x);
        },
        ExprV::FuncCall(callee, args) => {
            lemma_args_fuel(fo, f1, f2, env, args, 0);
            let ao = eval_args(fo, f1, env, args, 0);
            match ao.result {
                Ok(vals) => match call_target(env, *callee, vals) {
                    Ok((fenv, body)) => if f1 > 0 {
                        lemma_stmt_fuel(fo, (f1 - 1) as nat, (f2 - 1) as nat, fenv, body);
                    },
                    Err(_) => {},
                },
                Err(_) => {},
            }
        },
        ExprV::Grouping(x) => {
            lemma_eval_fuel(fo, f1, f2, env, *x);
        },
        _ => {},
    }
}

/// The same for the evaluation of arguments.
proof fn lemma_args_fuel(fo: FloatOracle, f1: nat, f2: nat, env: Bindings, args: Seq<ExprV>, i: nat)
    requires
        f1 <= f2,
    ensures
        !out_of_fuel(eval_args(fo, f1, env, args, i)) ==> eval_args(fo, f2, env, args, i)
            == eval_args(fo, f1, env, args, i),
    decreases f1, 0int, args, args.len() - i,
{
    if i < args.len() {
        lemma_eval_fuel(fo, f1, f2, env, args[i as int]);
        lemma_args_fuel(fo, f1, f2, env, args, i + 1);
    }
}

/// The same for the execution of a statement.
proof fn lemma_stmt_fuel(fo: FloatOracle, f1: nat, f2: nat, env: Bindings, s: StmtV)
    requires
        f1 <= f2,
    ensures
        !out_of_fuel(exec_stmt(fo, f1, env, s)) ==> exec_stmt(fo, f2, env, s) == exec_stmt(fo, f1, env, s),
    decreases f1, 1int, s, 0int,
{
    match s {
        StmtV::Return(_, e) => match e {
            Some(x) => lemma_eval_fuel(fo, f1, f2, env, x),
            None => {},
        },
        StmtV::Expression(e) => match e {
            ExprV::Assignment(_, rhs) => lemma_eval_fuel(fo, f1, f2, env, *rhs),
            _ => lemma_eval_fuel(fo, f1, f2, env, e),
        },
        StmtV::Let(_, _, e) => lemma_eval_fuel(fo, f1, f2, env, e),
        StmtV::Print(e, _) => lemma_eval_fuel(fo, f1, f2, env, e),
        StmtV::Block(ss) => lemma_block_fuel(fo, f1, f2, env, ss, 0),
        StmtV::While(c, body) => {
            lemma_eval_fuel(fo, f1, f2, env, c);
            lemma_loop_fuel(fo, f1, f2, env, *body);
        },
        StmtV::If(c, t, e) => {
            lemma_eval_fuel(fo, f1, f2, env, c);
            lemma_stmt_fuel(fo, f1, f2, env, *t);
            match e {
                Some(x) => lemma_stmt_fuel(fo, f1, f2, env, *x),
                None => {},
            }
        },
        _ => {},
    }
}

/// The same for the statements of a block.
proof fn lemma_block_fuel(fo: FloatOracle, f1: nat, f2: nat, env: Bindings, ss: Seq<StmtV>, i: nat)
    requires
        f1 <= f2,
    ensures
        !out_of_fuel(exec_block(fo, f1, env, ss, i)) ==> exec_block(fo, f2, env, ss, i)
            == exec_block(fo, f1, env, ss, i),
    decreases f1, 1int, ss, ss.len() - i,
{
    if i < ss.len() {
        lemma_stmt_fuel(fo, f1, f2, env, ss[i as int]);
        let o = exec_stmt(fo, f1, env, ss[i as int]);
        match o.result {
            Ok((env2, FlowV::Normal)) => lemma_block_fuel(fo, f1, f2, env2, ss, i + 1),
            _ => {},
        }
    }
}

/// The same for the turns of a loop.
proof fn lemma_loop_fuel(fo: FloatOracle, f1: nat, f2: nat, env: Bindings, body: StmtV)
    requires
        f1 <= f2,
    ensures
        !out_of_fuel(run_loop(fo, f1, env, body)) ==> run_loop(fo, f2, env, body) == run_loop(
            fo,
            f1,
            env,
            body,
        ),
    decreases f1, 1int, body, 0int,
{
    if f1 > 0 {
        lemma_stmt_fuel(fo, (f1 - 1) as nat, (f2 - 1) as nat, env, body);
        let o = exec_stmt(fo, (f1 - 1) as nat, env, body);
        match o.result {
            Ok((env2, FlowV::Normal)) => lemma_loop_fuel(fo, (f1 - 1) as nat, (f2 - 1) as nat, env2, body),
            Ok((env2, FlowV::Continue(_))) => lemma_loop_fuel(
                fo,
                (f1 - 1) as nat,
                (f2 - 1) as nat,
                env2,
                body,
            ),
            _ => {},
        }
    }
}

/// The same for the top-level declarations.
proof fn lemma_declarations_fuel(
    fo: FloatOracle,
    f1: nat,
    f2: nat,
    env: Bindings,
    stmts: Seq<StmtV>,
    i: nat,
)
    requires
        f1 <= f2,
    ensures
        !out_of_fuel(run_declarations(fo, f1, env, stmts, i)) ==> run_declarations(fo, f2, env, stmts, i)
            == run_declarations(fo, f1, env, stmts, i),
    decreases stmts.len() - i,
{
    if i < stmts.len() && is_declaration(stmts[i as int]) {
        lemma_stmt_fuel(fo, f1, f2, env, stmts[i as int]);
        let o = exec_stmt(fo, f1, env, stmts[i as int]);
        match o.result {
            Ok((env2, _)) => lemma_declarations_fuel(fo, f1, f2, env2, stmts, i + 1),
            _ => {},
        }
    }
}

/// The budget only cuts runs short: a run that does not stop for want of budget prints
/// the same and ends the same with any larger budget.
pub proof fn lemma_budget_only_cuts_short(
    fo: FloatOracle,
    f1: nat,
    f2: nat,
    globals: Bindings,
    stmts: Seq<StmtV>,
)
    requires
        f1 <= f2,
        !out_of_fuel(run_program(fo, f1, globals, stmts)),
    ensures
        run_program(fo, f2, globals, stmts) == run_program(fo, f1, globals, stmts),
{
    lemma_declarations_fuel(fo, f1, f2, globals, stmts, 0);
    let d = run_declarations(fo, f1, globals, stmts, 0);
    match d.result {
        Ok(g) => if g.dom().contains("main"@) {
            match g["main"@] {
                ValueV::Function(_, _, body) => lemma_stmt_fuel(fo, f1, f2, g, body),
                _ => {},
            }
        },
        Err(_) => {},
    }
}

/// Whether an outcome ends normally or by returning, in bindings that keep every name
/// of `env`.
pub open spec fn keeps_names(env: Bindings, o: Outcome<(Bindings, FlowV)>) -> bool {
    match o.result {
        Ok((env2, _)) => env.dom().subset_of(env2.dom()),
        Err(_) => true,
    }
}

/// Executing a statement never unbinds a name: a block opens no scope of its own, and no
/// statement removes a binding.
pub proof fn lemma_stmt_keeps_names(fo: FloatOracle, fuel: nat, env: Bindings, s: StmtV)
    ensures
        keeps_names(env, exec_stmt(fo, fuel, env, s)),
    decreases fuel, 1int, s, 0int,
{
    match s {
        StmtV::Block(ss) => lemma_block_keeps_names(fo, fuel, env, ss, 0),
        StmtV::While(c, body) => lemma_loop_keeps_names(fo, fuel, env, *body),
        StmtV::If(c, t, e) => {
            lemma_stmt_keeps_names(fo, fuel, env, *t);
            match e {
                Some(x) => lemma_stmt_keeps_names(fo, fuel, env, *x),
                None => {},
            }
        },
        _ => {},
    }
}

/// The same for the statements of a block.
proof fn lemma_block_keeps_names(fo: FloatOracle, fuel: nat, env: Bindings, ss: Seq<StmtV>, i: nat)
    ensures
        keeps_names(env, exec_block(fo, fuel, env, ss, i)),
    decreases fuel, 1int, ss, ss.len() - i,
{
    if i < ss.len() {
        lemma_stmt_keeps_names(fo, fuel, env, ss[i as int]);
        let o = exec_stmt(fo, fuel, env, ss[i as int]);
        match o.result {
            Ok((env2, FlowV::Normal)) => lemma_block_keeps_names(fo, fuel, env2, ss, i + 1),
            _ => {},
        }
    }
}

/// The same for the turns of a loop.
proof fn lemma_loop_keeps_names(fo: FloatOracle, fuel: nat, env: Bindings, body: StmtV)
    ensures
        keeps_names(env, run_loop(fo, fuel, env, body)),
    decreases fuel, 1int, body, 0int,
{
    if fuel > 0 {
        lemma_stmt_keeps_names(fo, (fuel - 1) as nat, env, body);
        let o = exec_stmt(fo, (fuel - 1) as nat, env, body);
        match o.result {
            Ok((env2, FlowV::Normal)) => lemma_loop_keeps_names(fo, (fuel - 1) as nat, env2, body),
            Ok((env2, FlowV::Continue(_))) => lemma_loop_keeps_names(fo, (fuel - 1) as nat, env2, body),
            _ => {},
        }
    }
}

/// Binding parameters adds the names of parameters and no other: every name the result
/// binds was bound before or names one of the parameters from the `i`-th on.
proof fn lemma_bind_params_names(
    env: Bindings,
    params: Seq<(Token, Token)>,
    args: Seq<ValueV>,
    i: nat,
    k: Seq<char>,
)
    requires
        bind_params(env, params, args, i) is Ok,
        bind_params(env, params, args, i)->Ok_0.dom().contains(k),
    ensures
        env.dom().contains(k) || exists|j: int|
            i <= j < params.len() && #[trigger] symbol_of(params[j].0) == Some(k),
    decreases params.len() - i,
{
    if i < params.len() && i < args.len() {
        let env2 = bind_one(env, params[i as int], args[i as int])->Ok_0;
        lemma_bind_params_names(env2, params, args, i + 1, k);
        if env2.dom().contains(k) && !env.dom().contains(k) {
            assert(symbol_of(params[i as int].0) == Some(k));
        }
    }
}

/// A called function sees its parameters and nothing else: where a call of the name
/// `t` is bound to a function, every name bound in the environment its body runs in is
/// the name of one of the function's parameters, whatever else the caller has bound.
pub proof fn lemma_callee_sees_only_parameters(
    env: Bindings,
    t: Token,
    name: Seq<char>,
    fname: Seq<char>,
    params: Seq<(Token, Token)>,
    body: StmtV,
    args: Seq<ValueV>,
    k: Seq<char>,
)
    requires
        symbol_of(t) == Some(name),
        env.dom().contains(name),
        env[name] == ValueV::Function(fname, params, body),
        call_target(env, ExprV::Variable(t), args) is Ok,
        call_target(env, ExprV::Variable(t), args)->Ok_0.0.dom().contains(k),
    ensures
        exists|j: int| 0 <= j < params.len() && #[trigger] symbol_of(params[j].0) == Some(k),
{
    lemma_bind_params_names(Map::empty(), params, args, 0, k);
}

/// Evaluation in wider bindings: an evaluation that succeeds gives the same in any
/// bindings that hold those it ran in, since it reads only the names it finds bound and
/// a called body runs over its parameters alone.
proof fn lemma_eval_wider(fo: FloatOracle, fuel: nat, env1: Bindings, env2: Bindings, e: ExprV)
    requires
        env1.submap_of(env2),
    ensures
        eval_expr(fo, fuel, env1, e).result is Ok ==> eval_expr(fo, fuel, env2, e) == eval_expr(
            fo,
            fuel,
            env1,
            e,
        ),
    decreases e, 0int,
{
    match e {
        ExprV::Binary(l, _, r) => {
            lemma_eval_wider(fo, fuel, env1, env2, *l);
            lemma_eval_wider(fo, fuel, env1, env2, *r);
        },
        ExprV::Logical(l, _, r) => {
            lemma_eval_wider(fo, fuel, env1, env2, *l);
            lemma_eval_wider(fo, fuel, env1, env2, *r);
        },
        ExprV::Unary(_, x) => lemma_eval_wider(fo, fuel, env1, env2, *x),
        ExprV::Grouping(x) => lemma_eval_wider(fo, fuel, env1, env2, *x),
        ExprV::FuncCall(callee, args) => {
            lemma_args_wider(fo, fuel, env1, env2, args, 0);
        },
        ExprV::Variable(t) => {
            match symbol_of(t) {
                Some(name) => if env1.dom().contains(name) {
                    assert(env2[name] == env1[name]);
                },
                None => {},
            }
        },
        _ => {},
    }
}

/// The same for the evaluation of arguments.
proof fn lemma_args_wider(
    fo: FloatOracle,
    fuel: nat,
    env1: Bindings,
    env2: Bindings,
    args: Seq<ExprV>,
    i: nat,
)
    requires
        env1.submap_of(env2),
    ensures
        eval_args(fo, fuel, env1, args, i).result is Ok ==> eval_args(fo, fuel, env2, args, i)
            == eval_args(fo, fuel, env1, args, i),
    decreases args, args.len() - i,
{
    if i < args.len() {
        lemma_eval_wider(fo, fuel, env1, env2, args[i as int]);
        lemma_args_wider(fo, fuel, env1, env2, args, i + 1);
    }
}

/// Top-level declarations only add bindings: the globals they leave hold those they
/// started from, with the same values.
proof fn lemma_declarations_grow(
    fo: FloatOracle,
    fuel: nat,
    env: Bindings,
    stmts: Seq<StmtV>,
    i: nat,
)
    ensures
        match run_declarations(fo, fuel, env, stmts, i).result {
            Ok(g) => env.submap_of(g),
            Err(_) => true,
        },
    decreases stmts.len() - i,
{
    if i < stmts.len() && is_declaration(stmts[i as int]) {
        let o = exec_stmt(fo, fuel, env, stmts[i as int]);
        match o.result {
            Ok((env2, _)) => {
                assert(env.submap_of(env2));
                lemma_declarations_grow(fo, fuel, env2, stmts, i + 1);
                match run_declarations(fo, fuel, env2, stmts, i + 1).result {
                    Ok(g) => {
                        vstd::map_lib::lemma_submap_of_trans(env, env2, g);
                    },
                    Err(_) => {},
                }
            },
            Err(_) => {},
        }
    }
}

/// The error a declaration meets where its name is bound already.
pub open spec fn redefinition_of(s: StmtV) -> ErrorV {
    match s {
        StmtV::Func(t, _, _, _) => ErrorV::RedefinedFunction(
            t,
            match symbol_of(t) {
                Some(n) => n,
                None => seq![],
            },
        ),
        StmtV::Let(t, _, _) => ErrorV::RedefinedVariable(
            t,
            match symbol_of(t) {
                Some(n) => n,
                None => seq![],
            },
        ),
        _ => ErrorV::Unreachable,
    }
}

/// Running a program again over the globals its first run left redefines its first
/// declaration: where a program of one statement or more runs without an error, running it
/// again over the globals it left stops on the redefinition of its first declaration.
/// (`main` runs in a copy of the globals, so nothing it does shows in them.)
pub proof fn lemma_second_run_redefines(
    fo: FloatOracle,
    fuel: nat,
    globals: Bindings,
    stmts: Seq<StmtV>,
)
    requires
        stmts.len() > 0,
        run_program(fo, fuel, globals, stmts).result is Ok,
    ensures
        run_program(fo, fuel, run_program(fo, fuel, globals, stmts).result->Ok_0, stmts).result == Err::<
            Bindings,
            ErrorV,
        >(redefinition_of(stmts[0])),
{
    let g2 = run_program(fo, fuel, globals, stmts).result->Ok_0;
    let s0 = stmts[0];
    let o = exec_stmt(fo, fuel, globals, s0);
    let env1 = o.result->Ok_0.0;
    lemma_declarations_grow(fo, fuel, env1, stmts, 1);
    assert(env1.submap_of(g2));
    match s0 {
        StmtV::Func(t, _, _, _) => {
            let name = symbol_of(t)->Some_0;
            assert(env1.dom().contains(name));
            assert(g2.dom().contains(name));
        },
        StmtV::Let(t, typ_tk, e) => {
            let name = match symbol_of(t) {
                Some(n) => n,
                None => seq![],
            };
            assert(globals.submap_of(env1));
            vstd::map_lib::lemma_submap_of_trans(globals, env1, g2);
            lemma_eval_wider(fo, fuel, globals, g2, e);
            assert(env1.dom().contains(name));
            assert(g2.dom().contains(name));
        },
        _ => {},
    }
}

/// Integer comparisons follow the order of the integers, and `+`, `-` and `*` give the
/// exact sum, difference and product where it fits in an `i64`, else an overflow at the
/// operator.
pub proof fn lemma_int_arithmetic(op: Token, a: i64, b: i64)
    ensures
        op.kind@ == KindView::Less ==> int_op(op, a, b) == Ok::<ValueV, ErrorV>(ValueV::Bool((a as int) < (b as int))),
        op.kind@ == KindView::LessEq ==> int_op(op, a, b) == Ok::<ValueV, ErrorV>(ValueV::Bool((a as int) <= (b as int))),
        op.kind@ == KindView::Greater ==> int_op(op, a, b) == Ok::<ValueV, ErrorV>(ValueV::Bool((a as int) > (b as int))),
        op.kind@ == KindView::GreaterEq ==> int_op(op, a, b) == Ok::<ValueV, ErrorV>(ValueV::Bool((a as int) >= (b as int))),
        op.kind@ == KindView::Equals ==> int_op(op, a, b) == Ok::<ValueV, ErrorV>(ValueV::Bool((a as int) == (b as int))),
        op.kind@ == KindView::NotEq ==> int_op(op, a, b) == Ok::<ValueV, ErrorV>(ValueV::Bool((a as int) != (b as int))),
        op.kind@ == KindView::Plus ==> int_op(op, a, b) == (if i64::MIN <= a + b <= i64::MAX {
            Ok::<ValueV, ErrorV>(ValueV::Int((a + b) as i64))
        } else {
            Err(ErrorV::Overflow(op))
        }),
        op.kind@ == KindView::Minus ==> int_op(op, a, b) == (if i64::MIN <= a - b <= i64::MAX {
            Ok::<ValueV, ErrorV>(ValueV::Int((a - b) as i64))
        } else {
            Err(ErrorV::Overflow(op))
        }),
        op.kind@ == KindView::Mul ==> int_op(op, a, b) == (if i64::MIN <= a * b <= i64::MAX {
            Ok::<ValueV, ErrorV>(ValueV::Int((a * b) as i64))
        } else {
            Err(ErrorV::Overflow(op))
        }),
        (op.kind@ == KindView::Div || op.kind@ == KindView::Modulo) && b == 0 ==> int_op(op, a, b)
            == Err::<ValueV, ErrorV>(ErrorV::DivisionByZero(op)),
        (op.kind@ == KindView::Div || op.kind@ == KindView::Modulo) && a == i64::MIN && b == -1
            ==> int_op(op, a, b) == Err::<ValueV, ErrorV>(ErrorV::Overflow(op)),
        op.kind@ == KindView::Div && a >= 0 && b > 0 ==> int_op(op, a, b) == Ok::<ValueV, ErrorV>(
            ValueV::Int((a as int / b as int) as i64),
        ),
        op.kind@ == KindView::Modulo && a >= 0 && b > 0 ==> int_op(op, a, b) == Ok::<ValueV, ErrorV>(
            ValueV::Int((a as int % b as int) as i64),
        ),
{
    if a >= 0 && b > 0 {
        vstd::arithmetic::div_mod::lemma_mod_pos_bound(a as int, b as int);
        if a == 0 {
            vstd::arithmetic::div_mod::lemma_small_mod(0, b as nat);
        }
    }
}

/// `-` negates an integer, overflowing on the least one alone, and `!` negates a boolean.
pub proof fn lemma_unary_ops(fo: FloatOracle, op: Token, v: ValueV)
    ensures
        op.kind@ == KindView::Minus && v is Int && v->Int_0 != i64::MIN ==> unary_op(fo, op, v)
            == Ok::<ValueV, ErrorV>(ValueV::Int((-(v->Int_0 as int)) as i64)),
        op.kind@ == KindView::Minus && v == ValueV::Int(i64::MIN) ==> unary_op(fo, op, v) == Err::<
            ValueV,
            ErrorV,
        >(ErrorV::NegationOverflow(op)),
        op.kind@ == KindView::Not && v is Bool ==> unary_op(fo, op, v) == Ok::<ValueV, ErrorV>(
            ValueV::Bool(!v->Bool_0),
        ),
{
}

/// `&&` and `||` on booleans are conjunction and disjunction; on strings `+` joins and
/// `==`, `!=` compare the texts.
pub proof fn lemma_logic_and_strings(fo: FloatOracle, op: Token, x: bool, y: bool, s: Seq<char>, t: Seq<char>)
    ensures
        op.kind@ == KindView::And ==> logical_op(ValueV::Bool(x), op, ValueV::Bool(y)) == Ok::<
            ValueV,
            ErrorV,
        >(ValueV::Bool(x && y)),
        op.kind@ == KindView::Or ==> logical_op(ValueV::Bool(x), op, ValueV::Bool(y)) == Ok::<
            ValueV,
            ErrorV,
        >(ValueV::Bool(x || y)),
        op.kind@ == KindView::Plus ==> binary_op(fo, ValueV::Str(s), op, ValueV::Str(t)) == Ok::<
            ValueV,
            ErrorV,
        >(ValueV::Str(s + t)),
        op.kind@ == KindView::Equals ==> binary_op(fo, ValueV::Str(s), op, ValueV::Str(t)) == Ok::<
            ValueV,
            ErrorV,
        >(ValueV::Bool(s == t)),
        op.kind@ == KindView::NotEq ==> binary_op(fo, ValueV::Str(s), op, ValueV::Str(t)) == Ok::<
            ValueV,
            ErrorV,
        >(ValueV::Bool(s != t)),
{
}

/// An `if` runs the branch its condition chooses, after the text the condition printed:
/// the first where it is true, the `else` branch where it is false, and nothing more
/// where it is false and there is no `else`.
pub proof fn lemma_if_runs_chosen_branch(
    fo: FloatOracle,
    fuel: nat,
    env: Bindings,
    c: ExprV,
    then_branch: StmtV,
    else_branch: Option<Box<StmtV>>,
)
    ensures
        ({
            let o = eval_expr(fo, fuel, env, c);
            let s = StmtV::If(c, Box::new(then_branch), else_branch);
            &&& o.result == Ok::<ValueV, ErrorV>(ValueV::Bool(true)) ==> exec_stmt(fo, fuel, env, s)
                == after(o.text, exec_stmt(fo, fuel, env, then_branch))
            &&& o.result == Ok::<ValueV, ErrorV>(ValueV::Bool(false)) && else_branch is Some
                ==> exec_stmt(fo, fuel, env, s) == after(
                o.text,
                exec_stmt(fo, fuel, env, *else_branch->Some_0),
            )
            &&& o.result == Ok::<ValueV, ErrorV>(ValueV::Bool(false)) && else_branch is None
                ==> exec_stmt(fo, fuel, env, s) == Outcome {
                text: o.text,
                result: Ok::<(Bindings, FlowV), ErrorV>((env, FlowV::Normal)),
            }
        }),
{
}

/// A `while` whose condition is false runs nothing more; one whose condition holds runs
/// its body turn after turn: a `break` ends the loop with the bindings its turn left, a
/// `continue` or a turn that ends normally goes on to the next turn, and a `return`
/// leaves the loop with its value.
pub proof fn lemma_while_turns(fo: FloatOracle, fuel: nat, env: Bindings, c: ExprV, body: StmtV)
    ensures
        ({
            let o = eval_expr(fo, fuel, env, c);
            o.result == Ok::<ValueV, ErrorV>(ValueV::Bool(false)) ==> exec_stmt(
                fo,
                fuel,
                env,
                StmtV::While(c, Box::new(body)),
            ) == Outcome { text: o.text, result: Ok::<(Bindings, FlowV), ErrorV>((env, FlowV::Normal)) }
        }),
        ({
            let t = exec_stmt(fo, (fuel - 1) as nat, env, body);
            let r = run_loop(fo, fuel, env, body);
            &&& fuel == 0 ==> r.result == Err::<(Bindings, FlowV), ErrorV>(ErrorV::StepLimit)
            &&& fuel > 0 ==> match t.result {
                Ok((env2, FlowV::Break(_))) => r == Outcome {
                    text: t.text,
                    result: Ok::<(Bindings, FlowV), ErrorV>((env2, FlowV::Normal)),
                },
                Ok((env2, FlowV::Continue(_))) => r == after(
                    t.text,
                    run_loop(fo, (fuel - 1) as nat, env2, body),
                ),
                Ok((env2, FlowV::Normal)) => r == after(t.text, run_loop(fo, (fuel - 1) as nat, env2, body)),
                Ok((env2, FlowV::Return(v))) => r.result == Ok::<(Bindings, FlowV), ErrorV>(
                    (env2, FlowV::Return(v)),
                ) && r.text == t.text,
                Err(e) => r.result == Err::<(Bindings, FlowV), ErrorV>(e) && r.text == t.text,
            }
        }),
{
}

/// A `let` whose value evaluates binds the name to that value where it is not bound yet
/// and the type is not `void`; an assignment to a bound name rebinds it, and to an unbound
/// name changes nothing; a print writes the value's text after what evaluating it wrote,
/// with a line break for `println`.
pub proof fn lemma_simple_statements(
    fo: FloatOracle,
    fuel: nat,
    env: Bindings,
    name_tk: Token,
    typ_tk: Token,
    e: ExprV,
    newline: bool,
)
    ensures
        ({
            let o = eval_expr(fo, fuel, env, e);
            let name = symbol_of(name_tk)->Some_0;
            &&& o.result is Ok && symbol_of(name_tk) is Some && !env.dom().contains(name)
                && type_name_of(typ_tk) is Some && type_name_of(typ_tk)->Some_0 != "void"@
                ==> exec_stmt(fo, fuel, env, StmtV::Let(name_tk, typ_tk, e)) == Outcome {
                text: o.text,
                result: Ok::<(Bindings, FlowV), ErrorV>(
                    (env.insert(name, o.result->Ok_0), FlowV::Normal),
                ),
            }
            &&& o.result is Ok && symbol_of(name_tk) is Some ==> exec_stmt(
                fo,
                fuel,
                env,
                StmtV::Expression(
                    ExprV::Assignment(Box::new(ExprV::Variable(name_tk)), Box::new(e)),
                ),
            ) == Outcome {
                text: o.text,
                result: Ok::<(Bindings, FlowV), ErrorV>(
                    (
                        if env.dom().contains(name) {
                            env.insert(name, o.result->Ok_0)
                        } else {
                            env
                        },
                        FlowV::Normal,
                    ),
                ),
            }
            &&& o.result is Ok ==> exec_stmt(fo, fuel, env, StmtV::Print(e, newline)) == Outcome {
                text: o.text + display(fo, o.result->Ok_0) + (if newline {
                    seq!['\n']
                } else {
                    seq![]
                }),
                result: Ok::<(Bindings, FlowV), ErrorV>((env, FlowV::Normal)),
            }
        }),
{
    let o = eval_expr(fo, fuel, env, e);
    if o.result is Ok {
        let v = o.result->Ok_0;
        assert(display(fo, v).push('\n') =~= display(fo, v) + seq!['\n']);
        assert(display(fo, v) =~= display(fo, v) + seq![]);
        assert(o.text + display(fo, v) + seq!['\n'] =~= o.text + display(fo, v).push('\n'));
        assert(o.text + display(fo, v) + seq![] =~= o.text + display(fo, v));
    }
}

/// Binding parameters to arguments gives the `i`-th parameter the `i`-th argument: where
/// the counts agree, every parameter names a symbol of a type other than `void` and no two
/// share a name, binding from the `i`-th parameter over `env` succeeds, binds each later
/// parameter's name to its own argument, and leaves every other name as `env` had it.
pub proof fn lemma_bind_params_in_order(
    env: Bindings,
    params: Seq<(Token, Token)>,
    args: Seq<ValueV>,
    i: nat,
)
    requires
        params.len() == args.len(),
        i <= params.len(),
        forall|j: int| 0 <= j < params.len() ==> (#[trigger] symbol_of(params[j].0)) is Some,
        forall|j: int|
            0 <= j < params.len() ==> (#[trigger] params[j].1).kind@ != KindView::PrimitiveType(
                "void"@,
            ),
        forall|j: int, k: int|
            0 <= j < k < params.len() ==> #[trigger] symbol_of(params[j].0) != #[trigger] symbol_of(
                params[k].0,
            ),
    ensures
        bind_params(env, params, args, i) is Ok,
        forall|j: int|
            i <= j < params.len() ==> #[trigger] bind_params(env, params, args, i)->Ok_0[symbol_of(
                params[j].0,
            )->Some_0] == args[j] && bind_params(env, params, args, i)->Ok_0.dom().contains(
                symbol_of(params[j].0)->Some_0,
            ),
        forall|k: Seq<char>|
            (forall|j: int| i <= j < params.len() ==> symbol_of(params[j].0) != Some(k)) ==> (
            #[trigger] bind_params(env, params, args, i)->Ok_0.dom().contains(k) == env.dom().contains(
                k,
            ) && (env.dom().contains(k) ==> bind_params(env, params, args, i)->Ok_0[k] == env[k])),
    decreases params.len() - i,
{
    if i < params.len() {
        let name = symbol_of(params[i as int].0)->Some_0;
        let env2 = env.insert(name, args[i as int]);
        assert(bind_one(env, params[i as int], args[i as int]) == Ok::<Bindings, ErrorV>(env2));
        lemma_bind_params_in_order(env2, params, args, i + 1);
        let m = bind_params(env, params, args, i)->Ok_0;
        assert(m == bind_params(env2, params, args, i + 1)->Ok_0);
        assert forall|j: int| i <= j < params.len() implies #[trigger] m[symbol_of(
            params[j].0,
        )->Some_0] == args[j] && m.dom().contains(symbol_of(params[j].0)->Some_0) by {
            if j == i {
                assert forall|l: int| i + 1 <= l < params.len() implies symbol_of(params[l].0) != Some(
                    name,
                ) by {
                    assert(symbol_of(params[i as int].0) != symbol_of(params[l].0));
                }
                assert(bind_params(env2, params, args, i + 1)->Ok_0.dom().contains(name));
            } else {
                assert(bind_params(env2, params, args, i + 1)->Ok_0[symbol_of(params[j].0)->Some_0]
                    == args[j]);
            }
        }
        assert forall|k: Seq<char>|
            (forall|j: int| i <= j < params.len() ==> symbol_of(params[j].0) != Some(k)) implies (
            #[trigger] m.dom().contains(k) == env.dom().contains(k) && (env.dom().contains(k) ==> m[k]
                == env[k])) by {
            assert(symbol_of(params[i as int].0) != Some(k));
            assert(forall|j: int| i + 1 <= j < params.len() ==> symbol_of(params[j].0) != Some(k));
            assert(bind_params(env2, params, args, i + 1)->Ok_0.dom().contains(k) == env2.dom().contains(
                k,
            ));
        }
    }
}

/// Whether parameters can be bound one to one: each names a symbol, none is of type
/// `void`, and no two share a name.
pub open spec fn distinct_parameters(params: Seq<(Token, Token)>) -> bool {
    &&& forall|j: int| 0 <= j < params.len() ==> (#[trigger] symbol_of(params[j].0)) is Some
    &&& forall|j: int|
        0 <= j < params.len() ==> (#[trigger] params[j].1).kind@ != KindView::PrimitiveType("void"@)
    &&& forall|j: int, k: int|
        0 <= j < k < params.len() ==> #[trigger] symbol_of(params[j].0) != #[trigger] symbol_of(
            params[k].0,
        )
}

/// A call of a function with as many arguments as parameters runs the function's own body,
/// with the `i`-th parameter bound to the `i`-th argument's value and no other name bound.
pub proof fn lemma_call_binds_arguments(
    env: Bindings,
    t: Token,
    name: Seq<char>,
    fname: Seq<char>,
    params: Seq<(Token, Token)>,
    body: StmtV,
    vals: Seq<ValueV>,
)
    requires
        symbol_of(t) == Some(name),
        env.dom().contains(name),
        env[name] == ValueV::Function(fname, params, body),
        vals.len() == params.len(),
        distinct_parameters(params),
    ensures
        call_target(env, ExprV::Variable(t), vals) is Ok,
        call_target(env, ExprV::Variable(t), vals)->Ok_0.1 == body,
        forall|j: int|
            #![trigger params[j]]
            0 <= j < params.len() ==> call_target(env, ExprV::Variable(t), vals)->Ok_0.0.dom().contains(
                symbol_of(params[j].0)->Some_0,
            ),
        forall|j: int|
            #![trigger params[j]]
            0 <= j < params.len() ==> call_target(env, ExprV::Variable(t), vals)->Ok_0.0[symbol_of(
                params[j].0,
            )->Some_0] == vals[j],
        forall|k: Seq<char>|
            (forall|j: int| 0 <= j < params.len() ==> symbol_of(params[j].0) != Some(k))
                ==> !(#[trigger] call_target(env, ExprV::Variable(t), vals)->Ok_0.0.dom().contains(k)),
{
    lemma_bind_params_in_order(Map::empty(), params, vals, 0);
    let m = bind_params(Map::empty(), params, vals, 0)->Ok_0;
    assert(call_target(env, ExprV::Variable(t), vals) == Ok::<(Bindings, StmtV), ErrorV>((m, body)));
    let fenv = call_target(env, ExprV::Variable(t), vals)->Ok_0.0;
    assert(fenv == m);
    assert forall|j: int| #![trigger params[j]] 0 <= j < params.len() implies fenv.dom().contains(
        symbol_of(params[j].0)->Some_0,
    ) && fenv[symbol_of(params[j].0)->Some_0] == vals[j] by {
        assert(bind_params(Map::empty(), params, vals, 0)->Ok_0[symbol_of(params[j].0)->Some_0]
            == vals[j]);
        assert(bind_params(Map::empty(), params, vals, 0)->Ok_0.dom().contains(
            symbol_of(params[j].0)->Some_0,
        ));
    }
    assert forall|k: Seq<char>|
        (forall|j: int| 0 <= j < params.len() ==> symbol_of(params[j].0) != Some(k)) implies !(
        #[trigger] m.dom().contains(k)) by {
        assert(bind_params(Map::empty(), params, vals, 0)->Ok_0.dom().contains(k) == Map::<
            Seq<char>,
            ValueV,
        >::empty().dom().contains(k));
    }
}

/// A variable gives the value its name is bound to and prints nothing; an unbound name
/// is an error at its token. `true` and `false` give the booleans, a number whose text
/// reads as an `i64` gives that integer, and a string literal its text without the quotes.
pub proof fn lemma_atoms(fo: FloatOracle, fuel: nat, env: Bindings, t: Token)
    ensures
        ({
            let name = symbol_of(t)->Some_0;
            &&& symbol_of(t) is Some && env.dom().contains(name) ==> eval_expr(
                fo,
                fuel,
                env,
                ExprV::Variable(t),
            ) == Outcome { text: Seq::<char>::empty(), result: Ok::<ValueV, ErrorV>(env[name]) }
            &&& symbol_of(t) is Some && !env.dom().contains(name) ==> eval_expr(
                fo,
                fuel,
                env,
                ExprV::Variable(t),
            ).result == Err::<ValueV, ErrorV>(ErrorV::UndefinedVariable(t, name))
        }),
        t.kind@ == KindView::True ==> eval_expr(fo, fuel, env, ExprV::Literal(t)).result == Ok::<
            ValueV,
            ErrorV,
        >(ValueV::Bool(true)),
        t.kind@ == KindView::False ==> eval_expr(fo, fuel, env, ExprV::Literal(t)).result == Ok::<
            ValueV,
            ErrorV,
        >(ValueV::Bool(false)),
        t.kind@ is Number && parse_i64_spec(t.kind@->Number_0) is Some ==> eval_expr(
            fo,
            fuel,
            env,
            ExprV::Literal(t),
        ).result == Ok::<ValueV, ErrorV>(ValueV::Int(parse_i64_spec(t.kind@->Number_0)->Some_0)),
        ({
            let s = t.kind@->Str_0;
            t.kind@ is Str && s.len() >= 2 && is_ascii_char(s[0]) && is_ascii_char(s[s.len() - 1])
                ==> eval_expr(fo, fuel, env, ExprV::Literal(t)).result == Ok::<ValueV, ErrorV>(
                ValueV::Str(s.subrange(1, s.len() - 1)),
            )
        }),
{
}

/// Operands are evaluated left to right: what a binary expression prints is what its
/// left operand prints, then what its right operand prints.
pub proof fn lemma_operands_left_to_right(fo: FloatOracle, fuel: nat, env: Bindings, l: ExprV, op: Token, r: ExprV)
    ensures
        ({
            let lo = eval_expr(fo, fuel, env, l);
            let ro = eval_expr(fo, fuel, env, r);
            let e = eval_expr(fo, fuel, env, ExprV::Binary(Box::new(l), op, Box::new(r)));
            &&& lo.result is Err ==> e.text == lo.text && e.result == Err::<ValueV, ErrorV>(lo.result->Err_0)
            &&& lo.result is Ok && ro.result is Err ==> e.text == lo.text + ro.text && e.result == Err::<
                ValueV,
                ErrorV,
            >(ro.result->Err_0)
            &&& lo.result is Ok && ro.result is Ok ==> e.text == lo.text + ro.text && e.result
                == binary_op(fo, lo.result->Ok_0, op, ro.result->Ok_0)
        }),
{
}

/// Floating-point operators ask the answerer the matching question: `+`, `-`, `*`, `/`
/// and `%` the sum, difference, product, quotient and remainder, the comparisons the
/// comparison of the same name; `-` before a number asks its negation.
pub proof fn lemma_float_questions(fo: FloatOracle, op: Token, a: u64, b: u64)
    ensures
        op.kind@ == KindView::Plus ==> float_op(fo, op, a, b) == Ok::<ValueV, ErrorV>(
            ValueV::Float(answer_bits(fo(FloatQueryV::Arith(FloatArith::Add, a, b)))),
        ),
        op.kind@ == KindView::Minus ==> float_op(fo, op, a, b) == Ok::<ValueV, ErrorV>(
            ValueV::Float(answer_bits(fo(FloatQueryV::Arith(FloatArith::Sub, a, b)))),
        ),
        op.kind@ == KindView::Mul ==> float_op(fo, op, a, b) == Ok::<ValueV, ErrorV>(
            ValueV::Float(answer_bits(fo(FloatQueryV::Arith(FloatArith::Mul, a, b)))),
        ),
        op.kind@ == KindView::Div ==> float_op(fo, op, a, b) == Ok::<ValueV, ErrorV>(
            ValueV::Float(answer_bits(fo(FloatQueryV::Arith(FloatArith::Div, a, b)))),
        ),
        op.kind@ == KindView::Modulo ==> float_op(fo, op, a, b) == Ok::<ValueV, ErrorV>(
            ValueV::Float(answer_bits(fo(FloatQueryV::Arith(FloatArith::Rem, a, b)))),
        ),
        op.kind@ == KindView::Less ==> float_op(fo, op, a, b) == Ok::<ValueV, ErrorV>(
            ValueV::Bool(answer_truth(fo(FloatQueryV::Compare(FloatCompare::Less, a, b)))),
        ),
        op.kind@ == KindView::LessEq ==> float_op(fo, op, a, b) == Ok::<ValueV, ErrorV>(
            ValueV::Bool(answer_truth(fo(FloatQueryV::Compare(FloatCompare::LessEq, a, b)))),
        ),
        op.kind@ == KindView::Greater ==> float_op(fo, op, a, b) == Ok::<ValueV, ErrorV>(
            ValueV::Bool(answer_truth(fo(FloatQueryV::Compare(FloatCompare::Greater, a, b)))),
        ),
        op.kind@ == KindView::GreaterEq ==> float_op(fo, op, a, b) == Ok::<ValueV, ErrorV>(
            ValueV::Bool(answer_truth(fo(FloatQueryV::Compare(FloatCompare::GreaterEq, a, b)))),
        ),
        op.kind@ == KindView::Equals ==> float_op(fo, op, a, b) == Ok::<ValueV, ErrorV>(
            ValueV::Bool(answer_truth(fo(FloatQueryV::Compare(FloatCompare::Equal, a, b)))),
        ),
        op.kind@ == KindView::NotEq ==> float_op(fo, op, a, b) == Ok::<ValueV, ErrorV>(
            ValueV::Bool(answer_truth(fo(FloatQueryV::Compare(FloatCompare::NotEqual, a, b)))),
        ),
        op.kind@ == KindView::Minus ==> unary_op(fo, op, ValueV::Float(a)) == Ok::<ValueV, ErrorV>(
            ValueV::Float(answer_bits(fo(FloatQueryV::Negate(a)))),
        ),
{
}

/// `return x;` leaves with the value of `x` and `return;` with nil, `break` and
/// `continue` leave the turn of the loop, and a function definition binds its name, where
/// it is not bound yet, to the function.
pub proof fn lemma_leaving_statements(
    fo: FloatOracle,
    fuel: nat,
    env: Bindings,
    t: Token,
    e: ExprV,
    params: Seq<(Token, Token)>,
    ret: Token,
    body: StmtV,
)
    ensures
        ({
            let o = eval_expr(fo, fuel, env, e);
            o.result is Ok ==> exec_stmt(fo, fuel, env, StmtV::Return(t, Some(e))) == Outcome {
                text: o.text,
                result: Ok::<(Bindings, FlowV), ErrorV>((env, FlowV::Return(o.result->Ok_0))),
            }
        }),
        exec_stmt(fo, fuel, env, StmtV::Return(t, None)).result == Ok::<(Bindings, FlowV), ErrorV>(
            (env, FlowV::Return(ValueV::Nil)),
        ),
        exec_stmt(fo, fuel, env, StmtV::Break(t)).result == Ok::<(Bindings, FlowV), ErrorV>(
            (env, FlowV::Break(t)),
        ),
        exec_stmt(fo, fuel, env, StmtV::Continue(t)).result == Ok::<(Bindings, FlowV), ErrorV>(
            (env, FlowV::Continue(t)),
        ),
        ({
            let name = symbol_of(t)->Some_0;
            symbol_of(t) is Some && !env.dom().contains(name) ==> exec_stmt(
                fo,
                fuel,
                env,
                StmtV::Func(t, params, ret, Box::new(body)),
            ).result == Ok::<(Bindings, FlowV), ErrorV>(
                (env.insert(name, ValueV::Function(name, params, body)), FlowV::Normal),
            )
        }),
        ({
            let name = symbol_of(t)->Some_0;
            symbol_of(t) is Some && env.dom().contains(name) ==> exec_stmt(
                fo,
                fuel,
                env,
                StmtV::Func(t, params, ret, Box::new(body)),
            ).result == Err::<(Bindings, FlowV), ErrorV>(ErrorV::RedefinedFunction(t, name))
        }),
{
}

/// A call gives what the called body gives back: after its arguments are evaluated, the
/// body runs with one unit less of budget in the environment of its parameters; a
/// `return` gives its value, an end without one gives nil, and a `break` or `continue`
/// that leaves the body is an error.
pub proof fn lemma_call_result(fo: FloatOracle, fuel: nat, env: Bindings, callee: ExprV, args: Seq<ExprV>)
    ensures
        ({
            let ao = eval_args(fo, fuel, env, args, 0);
            let e = eval_expr(fo, fuel, env, ExprV::FuncCall(Box::new(callee), args));
            ao.result is Ok && call_target(env, callee, ao.result->Ok_0) is Ok && fuel > 0 ==> {
                let (fenv, body) = call_target(env, callee, ao.result->Ok_0)->Ok_0;
                let bo = exec_stmt(fo, (fuel - 1) as nat, fenv, body);
                &&& e.text == ao.text + bo.text
                &&& bo.result is Ok && bo.result->Ok_0.1 is Return ==> e.result == Ok::<ValueV, ErrorV>(
                    bo.result->Ok_0.1->Return_0,
                )
                &&& bo.result is Ok && bo.result->Ok_0.1 is Normal ==> e.result == Ok::<ValueV, ErrorV>(
                    ValueV::Nil,
                )
                &&& bo.result is Ok && bo.result->Ok_0.1 is Break ==> e.result == Err::<ValueV, ErrorV>(
                    ErrorV::BreakOutsideLoop(bo.result->Ok_0.1->Break_0),
                )
                &&& bo.result is Err ==> e.result == Err::<ValueV, ErrorV>(bo.result->Err_0)
            }
        }),
        ({
            let ao = eval_args(fo, fuel, env, args, 0);
            ao.result is Ok && call_target(env, callee, ao.result->Ok_0) is Ok && fuel == 0
                ==> eval_expr(fo, fuel, env, ExprV::FuncCall(Box::new(callee), args)).result == Err::<
                ValueV,
                ErrorV,
            >(ErrorV::StepLimit)
        }),
{
}

/// Arguments are evaluated in order, each to its own value: where every argument from the
/// `i`-th on evaluates, their values come in the order of the arguments and their texts
/// one after another.
pub proof fn lemma_args_in_order(fo: FloatOracle, fuel: nat, env: Bindings, args: Seq<ExprV>, i: nat)
    requires
        i <= args.len(),
        forall|j: int| i <= j < args.len() ==> (#[trigger] eval_expr(fo, fuel, env, args[j])).result is Ok,
    ensures
        eval_args(fo, fuel, env, args, i).result is Ok,
        eval_args(fo, fuel, env, args, i).result->Ok_0.len() == args.len() - i,
        forall|j: int|
            i <= j < args.len() ==> eval_args(fo, fuel, env, args, i).result->Ok_0[j - i] == (
            #[trigger] eval_expr(fo, fuel, env, args[j])).result->Ok_0,
    decreases args.len() - i,
{
    if i < args.len() {
        lemma_args_in_order(fo, fuel, env, args, i + 1);
        let o = eval_expr(fo, fuel, env, args[i as int]);
        let rest = eval_args(fo, fuel, env, args, i + 1);
        let vs = seq![o.result->Ok_0] + rest.result->Ok_0;
        assert(eval_args(fo, fuel, env, args, i).result == Ok::<Seq<ValueV>, ErrorV>(vs));
        assert forall|j: int| i <= j < args.len() implies vs[j - i] == (#[trigger] eval_expr(
            fo,
            fuel,
            env,
            args[j],
        )).result->Ok_0 by {
            if j > i {
                assert(vs[j - i] == rest.result->Ok_0[j - (i + 1)]);
            }
        }
    }
}

/// Both sides of `&&` and `||` are evaluated, the left first.
pub proof fn lemma_logical_evaluates_both(fo: FloatOracle, fuel: nat, env: Bindings, l: ExprV, op: Token, r: ExprV)
    ensures
        ({
            let lo = eval_expr(fo, fuel, env, l);
            let ro = eval_expr(fo, fuel, env, r);
            let e = eval_expr(fo, fuel, env, ExprV::Logical(Box::new(l), op, Box::new(r)));
            &&& lo.result is Err ==> e.text == lo.text && e.result == Err::<ValueV, ErrorV>(lo.result->Err_0)
            &&& lo.result is Ok && ro.result is Err ==> e.text == lo.text + ro.text && e.result == Err::<
                ValueV,
                ErrorV,
            >(ro.result->Err_0)
            &&& lo.result is Ok && ro.result is Ok ==> e.text == lo.text + ro.text && e.result
                == logical_op(lo.result->Ok_0, op, ro.result->Ok_0)
        }),
{
}

/// What `print` writes of a value: an integer in decimal, which reads back as the same
/// integer; a string as its text; a function as `<fn name>`; the booleans and nil by name.
pub proof fn lemma_display(fo: FloatOracle, i: i64, s: Seq<char>, name: Seq<char>, params: Seq<(Token, Token)>, body: StmtV)
    ensures
        parse_i64_spec(display(fo, ValueV::Int(i))) == Some(i),
        display(fo, ValueV::Str(s)) == s,
        display(fo, ValueV::Function(name, params, body)) == "<fn "@ + name + ">"@,
        display(fo, ValueV::Bool(true)) == "true"@,
        display(fo, ValueV::Bool(false)) == "false"@,
        display(fo, ValueV::Nil) == "nil"@,
{
    crate::number::lemma_read_back_printed(i);
}

/// A program runs its declarations in order and then `main`: a statement at the top level
/// that is no declaration stops the run there, at its token; after the declarations, a
/// missing `main` or one that is no function stops the run.
pub proof fn lemma_program_shape(fo: FloatOracle, fuel: nat, globals: Bindings, stmts: Seq<StmtV>, i: nat)
    ensures
        i < stmts.len() && !is_declaration(stmts[i as int]) && stmt_has_token(stmts[i as int])
            ==> run_declarations(fo, fuel, globals, stmts, i).result == Err::<Bindings, ErrorV>(
            ErrorV::TopLevelStatement(stmt_token(stmts[i as int])),
        ),
        ({
            let d = run_declarations(fo, fuel, globals, stmts, 0);
            &&& d.result is Ok && !d.result->Ok_0.dom().contains("main"@) ==> run_program(
                fo,
                fuel,
                globals,
                stmts,
            ).result == Err::<Bindings, ErrorV>(ErrorV::MainNotFound)
            &&& d.result is Ok && d.result->Ok_0.dom().contains("main"@) && !(
            d.result->Ok_0["main"@] is Function) ==> run_program(fo, fuel, globals, stmts).result
                == Err::<Bindings, ErrorV>(ErrorV::MainNotFunction)
            &&& d.result is Ok && d.result->Ok_0.dom().contains("main"@) && (
            d.result->Ok_0["main"@] is Function) && exec_stmt(
                fo,
                fuel,
                d.result->Ok_0,
                d.result->Ok_0["main"@]->Function_2,
            ).result is Ok && stray_flow(
                exec_stmt(fo, fuel, d.result->Ok_0, d.result->Ok_0["main"@]->Function_2).result->Ok_0.1,
            ) is None ==> run_program(fo, fuel, globals, stmts) == Outcome {
                text: d.text + exec_stmt(
                    fo,
                    fuel,
                    d.result->Ok_0,
                    d.result->Ok_0["main"@]->Function_2,
                ).text,
                result: Ok::<Bindings, ErrorV>(d.result->Ok_0),
            }
        }),
{
}

} // verus!
