//! The tree-walking interpreter: it runs a program's declarations, then the body of its
//! `main`, as [`crate::semantics`] states.
use vstd::prelude::*;

use crate::ast::{copy_params, lemma_expr_view, lemma_exprs_view, lemma_stmt_view, lemma_stmts_view, Expr, Stmt, StmtV};
use crate::environ::Environment;
use crate::number::parse_i64;
use crate::semantics::{
    after,
    arith_of,
    binary_op,
    bind_params,
    call_target,
    compare_of,
    eval_args,
    eval_expr,
    exec_block,
    exec_stmt,
    int_op,
    literal_value,
    logical_op,
    run_declarations,
    run_loop,
    run_program,
    string_literal,
    unary_op,
    variable_value,
    Bindings,
    ErrorV,
    FlowV,
    Outcome,
};
use crate::text::{push_char, text_equals};
use crate::token::{KindView, Token, TokenKind};
pub use crate::value::Value;
use crate::value::{
    answers_floats,
    ask,
    oracle_of,
    FloatAnswer,
    FloatArith,
    FloatCompare,
    FloatQuery,
    ValueV,
};

verus! {

/// Why a run stopped before its end. Each variant but the last few carries the token it
/// is reported at.
#[derive(Debug)]
pub enum RuntimeError {
    TopLevelStatement(Token),
    MainNotFound,
    MainNotFunction,
    InvalidNumber(Token),
    BadStringLiteral(Token),
    BadOperand(Token, Value),
    NotUnary(Token),
    UnknownOperator(Token),
    StringOperator(Token),
    LogicalOperator(Token),
    OperandTypes(Token, String, String),
    UndefinedFunction(Token, String),
    TooFewArguments(Token, String, usize, usize),
    TooManyArguments(Token, String, usize, usize),
    VoidParameter(Token, String),
    NotAFunction(Token, String),
    UndefinedVariable(Token, String),
    VoidVariable(Token, String),
    RedefinedVariable(Token, String),
    NotBoolean(Token),
    RedefinedFunction(Token, String),
    Overflow(Token),
    NegationOverflow(Token),
    DivisionByZero(Token),
    Unreachable,
    MissingToken,
    StepLimit,
    BreakOutsideLoop(Token),
    ContinueOutsideLoop(Token),
}

impl View for RuntimeError {
    type V = ErrorV;

    open spec fn view(&self) -> ErrorV {
        match self {
            RuntimeError::TopLevelStatement(t) => ErrorV::TopLevelStatement(*t),
            RuntimeError::MainNotFound => ErrorV::MainNotFound,
            RuntimeError::MainNotFunction => ErrorV::MainNotFunction,
            RuntimeError::InvalidNumber(t) => ErrorV::InvalidNumber(*t),
            RuntimeError::BadStringLiteral(t) => ErrorV::BadStringLiteral(*t),
            RuntimeError::BadOperand(t, v) => ErrorV::BadOperand(*t, v@),
            RuntimeError::NotUnary(t) => ErrorV::NotUnary(*t),
            RuntimeError::UnknownOperator(t) => ErrorV::UnknownOperator(*t),
            RuntimeError::StringOperator(t) => ErrorV::StringOperator(*t),
            RuntimeError::LogicalOperator(t) => ErrorV::LogicalOperator(*t),
            RuntimeError::OperandTypes(t, a, b) => ErrorV::OperandTypes(*t, a@, b@),
            RuntimeError::UndefinedFunction(t, n) => ErrorV::UndefinedFunction(*t, n@),
            RuntimeError::TooFewArguments(t, n, p, a) => ErrorV::TooFewArguments(
                *t,
                n@,
                *p as nat,
                *a as nat,
            ),
            RuntimeError::TooManyArguments(t, n, p, a) => ErrorV::TooManyArguments(
                *t,
                n@,
                *p as nat,
                *a as nat,
            ),
            RuntimeError::VoidParameter(t, n) => ErrorV::VoidParameter(*t, n@),
            RuntimeError::NotAFunction(t, n) => ErrorV::NotAFunction(*t, n@),
            RuntimeError::UndefinedVariable(t, n) => ErrorV::UndefinedVariable(*t, n@),
            RuntimeError::VoidVariable(t, n) => ErrorV::VoidVariable(*t, n@),
            RuntimeError::RedefinedVariable(t, n) => ErrorV::RedefinedVariable(*t, n@),
            RuntimeError::NotBoolean(t) => ErrorV::NotBoolean(*t),
            RuntimeError::RedefinedFunction(t, n) => ErrorV::RedefinedFunction(*t, n@),
            RuntimeError::Overflow(t) => ErrorV::Overflow(*t),
            RuntimeError::NegationOverflow(t) => ErrorV::NegationOverflow(*t),
            RuntimeError::DivisionByZero(t) => ErrorV::DivisionByZero(*t),
            RuntimeError::Unreachable => ErrorV::Unreachable,
            RuntimeError::MissingToken => ErrorV::MissingToken,
            RuntimeError::StepLimit => ErrorV::StepLimit,
            RuntimeError::BreakOutsideLoop(t) => ErrorV::BreakOutsideLoop(*t),
            RuntimeError::ContinueOutsideLoop(t) => ErrorV::ContinueOutsideLoop(*t),
        }
    }
}

/// How a statement ended.
enum Flow {
    Normal,
    Return(Value),
    Break(Token),
    Continue(Token),
}

impl View for Flow {
    type V = FlowV;

    closed spec fn view(&self) -> FlowV {
        match self {
            Flow::Normal => FlowV::Normal,
            Flow::Return(v) => FlowV::Return(v@),
            Flow::Break(t) => FlowV::Break(*t),
            Flow::Continue(t) => FlowV::Continue(*t),
        }
    }
}

/// The model of a value or an error.
pub open spec fn value_result(r: Result<Value, RuntimeError>) -> Result<ValueV, ErrorV> {
    match r {
        Ok(v) => Ok(v@),
        Err(e) => Err(e@),
    }
}

/// The models of values.
pub open spec fn values_view(vs: Seq<Value>) -> Seq<ValueV> {
    vs.map_values(|v: Value| v@)
}

/// An integer result, or an overflow at `op`.
fn checked(op: &Token, r: Option<i64>) -> (res: Result<Value, RuntimeError>)
    ensures
        value_result(res) == crate::semantics::checked_int(*op, r),
{
    match r {
        Some(v) => Ok(Value::Int(v)),
        None => Err(RuntimeError::Overflow(op.duplicate())),
    }
}

/// A binary operator on two integers.
fn int_binary(op: &Token, a: i64, b: i64) -> (res: Result<Value, RuntimeError>)
    ensures
        value_result(res) == int_op(*op, a, b),
{
    match &op.kind {
        TokenKind::Plus => checked(op, a.checked_add(b)),
        TokenKind::Minus => checked(op, a.checked_sub(b)),
        TokenKind::Mul => checked(op, a.checked_mul(b)),
        TokenKind::Div => if b == 0 {
            Err(RuntimeError::DivisionByZero(op.duplicate()))
        } else {
            checked(op, a.checked_div(b))
        },
        TokenKind::Modulo => if b == 0 {
            Err(RuntimeError::DivisionByZero(op.duplicate()))
        } else {
            checked(op, a.checked_rem(b))
        },
        TokenKind::Less => Ok(Value::Bool(a < b)),
        TokenKind::LessEq => Ok(Value::Bool(a <= b)),
        TokenKind::Greater => Ok(Value::Bool(a > b)),
        TokenKind::GreaterEq => Ok(Value::Bool(a >= b)),
        TokenKind::Equals => Ok(Value::Bool(a == b)),
        TokenKind::NotEq => Ok(Value::Bool(a != b)),
        _ => Err(RuntimeError::UnknownOperator(op.duplicate())),
    }
}

/// The arithmetic operation an operator stands for.
fn float_arith(k: &TokenKind) -> (r: Option<FloatArith>)
    ensures
        r == arith_of(k@),
{
    match k {
        TokenKind::Plus => Some(FloatArith::Add),
        TokenKind::Minus => Some(FloatArith::Sub),
        TokenKind::Mul => Some(FloatArith::Mul),
        TokenKind::Div => Some(FloatArith::Div),
        TokenKind::Modulo => Some(FloatArith::Rem),
        _ => None,
    }
}

/// The comparison an operator stands for.
fn float_compare(k: &TokenKind) -> (r: Option<FloatCompare>)
    ensures
        r == compare_of(k@),
{
    match k {
        TokenKind::Less => Some(FloatCompare::Less),
        TokenKind::LessEq => Some(FloatCompare::LessEq),
        TokenKind::Greater => Some(FloatCompare::Greater),
        TokenKind::GreaterEq => Some(FloatCompare::GreaterEq),
        TokenKind::Equals => Some(FloatCompare::Equal),
        TokenKind::NotEq => Some(FloatCompare::NotEqual),
        _ => None,
    }
}

/// The bits of a number in an answer; 0 where it holds none.
fn number_in(a: FloatAnswer) -> (r: u64)
    ensures
        r == crate::value::answer_bits(a@),
{
    match a {
        FloatAnswer::Number(b) => b,
        _ => 0,
    }
}

/// A binary operator on two floating-point numbers.
fn float_binary<F: Fn(FloatQuery) -> FloatAnswer>(floats: &F, op: &Token, a: u64, b: u64) -> (res:
    Result<Value, RuntimeError>)
    requires
        answers_floats(floats),
    ensures
        value_result(res) == crate::semantics::float_op(oracle_of(floats), *op, a, b),
{
    match float_arith(&op.kind) {
        Some(k) => Ok(Value::Float(number_in(ask(floats, FloatQuery::Arith(k, a, b))))),
        None => match float_compare(&op.kind) {
            Some(c) => {
                let t = match ask(floats, FloatQuery::Compare(c, a, b)) {
                    FloatAnswer::Truth(t) => t,
                    _ => false,
                };
                Ok(Value::Bool(t))
            },
            None => Err(RuntimeError::UnknownOperator(op.duplicate())),
        },
    }
}

/// A binary operator on two values.
fn binary<F: Fn(FloatQuery) -> FloatAnswer>(floats: &F, l: Value, op: &Token, r: Value) -> (res:
    Result<Value, RuntimeError>)
    requires
        answers_floats(floats),
    ensures
        value_result(res) == binary_op(oracle_of(floats), l@, *op, r@),
{
    match (l, r) {
        (Value::Int(a), Value::Int(b)) => int_binary(op, a, b),
        (Value::Float(a), Value::Float(b)) => float_binary(floats, op, a, b),
        (Value::Str(a), Value::Str(b)) => match &op.kind {
            TokenKind::Plus => Ok(Value::Str(a.concat(b.as_str()))),
            TokenKind::Equals => Ok(Value::Bool(a == b)),
            TokenKind::NotEq => Ok(Value::Bool(!(a == b))),
            _ => Err(RuntimeError::StringOperator(op.duplicate())),
        },
        (x, y) => Err(RuntimeError::OperandTypes(op.duplicate(), x.typ(), y.typ())),
    }
}

/// `&&` or `||` on two values.
fn logical(l: Value, op: &Token, r: Value) -> (res: Result<Value, RuntimeError>)
    ensures
        value_result(res) == logical_op(l@, *op, r@),
{
    match (l, r) {
        (Value::Bool(a), Value::Bool(b)) => match &op.kind {
            TokenKind::Or => Ok(Value::Bool(a || b)),
            TokenKind::And => Ok(Value::Bool(a && b)),
            _ => Err(RuntimeError::LogicalOperator(op.duplicate())),
        },
        (x, y) => Err(RuntimeError::OperandTypes(op.duplicate(), x.typ(), y.typ())),
    }
}

/// `-` or `!` on a value.
fn unary<F: Fn(FloatQuery) -> FloatAnswer>(floats: &F, op: &Token, v: Value) -> (res: Result<
    Value,
    RuntimeError,
>)
    requires
        answers_floats(floats),
    ensures
        value_result(res) == unary_op(oracle_of(floats), *op, v@),
{
    match &op.kind {
        TokenKind::Minus => match v {
            Value::Int(i) => if i == i64::MIN {
                Err(RuntimeError::NegationOverflow(op.duplicate()))
            } else {
                Ok(Value::Int(-i))
            },
            Value::Float(f) => Ok(Value::Float(number_in(ask(floats, FloatQuery::Negate(f))))),
            other => Err(RuntimeError::BadOperand(op.duplicate(), other)),
        },
        TokenKind::Not => match v {
            Value::Bool(b) => Ok(Value::Bool(!b)),
            other => Err(RuntimeError::BadOperand(op.duplicate(), other)),
        },
        _ => Err(RuntimeError::NotUnary(op.duplicate())),
    }
}

/// The text of a string literal without its quotes.
fn strip_quotes(s: &str) -> (r: Option<String>)
    ensures
        match r {
            Some(x) => string_literal(s@) == Some(x@),
            None => string_literal(s@) is None,
        },
{
    let n = s.unicode_len();
    if n < 2 {
        return None;
    }
    let first = s.get_char(0);
    let last = s.get_char(n - 1);
    if (first as u32) < 128 && (last as u32) < 128 {
        Some(String::from_str(s.substring_char(1, n - 1)))
    } else {
        None
    }
}

/// The value of a literal.
fn literal<F: Fn(FloatQuery) -> FloatAnswer>(floats: &F, t: &Token) -> (r: Result<
    Value,
    RuntimeError,
>)
    requires
        answers_floats(floats),
    ensures
        value_result(r) == literal_value(oracle_of(floats), *t),
{
    match &t.kind {
        TokenKind::False => Ok(Value::Bool(false)),
        TokenKind::True => Ok(Value::Bool(true)),
        TokenKind::Number(n) => match parse_i64(n.as_str()) {
            Some(x) => Ok(Value::Int(x)),
            None => match ask(floats, FloatQuery::Parse(n.clone())) {
                FloatAnswer::Number(b) => Ok(Value::Float(b)),
                _ => Err(RuntimeError::InvalidNumber(t.duplicate())),
            },
        },
        TokenKind::Str(s) => match strip_quotes(s.as_str()) {
            Some(x) => Ok(Value::Str(x)),
            None => Err(RuntimeError::BadStringLiteral(t.duplicate())),
        },
        _ => Err(RuntimeError::Unreachable),
    }
}

/// The value of a variable.
fn variable(env: &Environment, t: &Token) -> (r: Result<Value, RuntimeError>)
    ensures
        value_result(r) == variable_value(env@, *t),
{
    match &t.kind {
        TokenKind::Symbol(name) => if env.has(name.as_str()) {
            Ok(env.lookup(name.as_str()))
        } else {
            Err(RuntimeError::UndefinedVariable(t.duplicate(), name.clone()))
        },
        _ => Err(RuntimeError::Unreachable),
    }
}

/// Whether a kind is the type `void`.
fn is_void(k: &TokenKind) -> (r: bool)
    ensures
        r == (k@ == KindView::PrimitiveType("void"@)),
{
    match k {
        TokenKind::PrimitiveType(s) => text_equals(s.as_str(), "void"),
        _ => false,
    }
}

/// An environment holding the parameters bound to the arguments.
fn bind(params: &Vec<(Token, Token)>, args: &Vec<Value>) -> (r: Result<Environment, RuntimeError>)
    ensures
        match r {
            Ok(env) => bind_params(Map::empty(), params@, values_view(args@), 0) == Ok::<
                Bindings,
                ErrorV,
            >(env@),
            Err(e) => bind_params(Map::empty(), params@, values_view(args@), 0) == Err::<
                Bindings,
                ErrorV,
            >(e@),
        },
{
    let ghost av = values_view(args@);
    let mut env = Environment::new();
    let mut i: usize = 0;
    while i < params.len() && i < args.len()
        invariant
            i <= params.len(),
            av == values_view(args@),
            bind_params(Map::empty(), params@, av, 0) == bind_params(env@, params@, av, i as nat),
        decreases params.len() - i,
    {
        assert(av[i as int] == args@[i as int]@);
        let p = &params[i];
        match &p.0.kind {
            TokenKind::Symbol(name) => {
                if is_void(&p.1.kind) {
                    return Err(RuntimeError::VoidParameter(p.0.duplicate(), name.clone()));
                }
                env.insert(name.clone(), args[i].duplicate());
            },
            _ => {},
        }
        i = i + 1;
    }
    Ok(env)
}

/// What a call runs: the environment of the callee's parameters and its body.
fn resolve(env: &Environment, callee: &Expr, args: &Vec<Value>) -> (r: Result<
    (Environment, Stmt),
    RuntimeError,
>)
    ensures
        match r {
            Ok((fenv, body)) => call_target(env@, callee@, values_view(args@)) == Ok::<
                (Bindings, StmtV),
                ErrorV,
            >((fenv@, body@)),
            Err(e) => call_target(env@, callee@, values_view(args@)) == Err::<
                (Bindings, StmtV),
                ErrorV,
            >(e@),
        },
{
    proof {
        lemma_expr_view(*callee);
    }
    match callee {
        Expr::Variable(t) => match &t.kind {
            TokenKind::Symbol(name) => {
                if !env.has(name.as_str()) {
                    return Err(RuntimeError::UndefinedFunction(t.duplicate(), name.clone()));
                }
                match env.lookup(name.as_str()) {
                    Value::Function(_, params, body) => {
                        if args.len() < params.len() {
                            Err(
                                RuntimeError::TooFewArguments(
                                    t.duplicate(),
                                    name.clone(),
                                    params.len(),
                                    args.len(),
                                ),
                            )
                        } else if args.len() > params.len() {
                            Err(
                                RuntimeError::TooManyArguments(
                                    t.duplicate(),
                                    name.clone(),
                                    params.len(),
                                    args.len(),
                                ),
                            )
                        } else {
                            match bind(&params, args) {
                                Ok(fenv) => Ok((fenv, *body)),
                                Err(e) => Err(e),
                            }
                        }
                    },
                    _ => Err(RuntimeError::NotAFunction(t.duplicate(), name.clone())),
                }
            },
            _ => Err(RuntimeError::Unreachable),
        },
        _ => Err(RuntimeError::Unreachable),
    }
}


/// The outcome `whole` of evaluating arguments, seen from the `i`-th on: `text` was printed
/// and `vals` computed before.
spec fn args_so_far(
    whole: Outcome<Seq<ValueV>>,
    text: Seq<char>,
    vals: Seq<ValueV>,
    rest: Outcome<Seq<ValueV>>,
) -> bool {
    &&& whole.text == text + rest.text
    &&& whole.result == match rest.result {
        Ok(vs) => Ok(vals + vs),
        Err(e) => Err::<Seq<ValueV>, ErrorV>(e),
    }
}

/// Evaluates the arguments of a call in order, appending what they print to `out`.
fn eval_arguments<F: Fn(FloatQuery) -> FloatAnswer>(
    floats: &F,
    fuel: u64,
    env: &Environment,
    args: &Vec<Expr>,
    out: &mut String,
) -> (r: Result<Vec<Value>, RuntimeError>)
    requires
        answers_floats(floats),
    ensures
        final(out)@ == old(out)@ + eval_args(
            oracle_of(floats),
            fuel as nat,
            env@,
            crate::ast::exprs_view(args@),
            0,
        ).text,
        match r {
            Ok(vs) => eval_args(oracle_of(floats), fuel as nat, env@, crate::ast::exprs_view(args@), 0).result
                == Ok::<Seq<ValueV>, ErrorV>(values_view(vs@)),
            Err(er) => eval_args(oracle_of(floats), fuel as nat, env@, crate::ast::exprs_view(args@), 0).result
                == Err::<Seq<ValueV>, ErrorV>(er@),
        },
    decreases fuel, 0int, args, 1int,
{
    let ghost fo = oracle_of(floats);
    let ghost argsv = crate::ast::exprs_view(args@);
    let ghost whole = eval_args(fo, fuel as nat, env@, argsv, 0);
    let ghost start = out@;
    proof {
        lemma_exprs_view(args@);
        assert(args_so_far(whole, seq![], seq![], whole)) by {
            assert(whole.text =~= seq![] + whole.text);
            match whole.result {
                Ok(vs) => {
                    assert(vs =~= seq![] + vs);
                },
                Err(_) => {},
            }
        }
        assert(out@.subrange(0, start.len() as int) =~= start);
        assert(out@.subrange(start.len() as int, out@.len() as int) =~= seq![]);
    }
    let mut vals: Vec<Value> = Vec::new();
    let mut i: usize = 0;
    while i < args.len()
        invariant
            i <= args.len(),
            answers_floats(floats),
            fo == oracle_of(floats),
            argsv == crate::ast::exprs_view(args@),
            argsv.len() == args@.len(),
            forall|j: int| 0 <= j < args@.len() ==> #[trigger] argsv[j] == args@[j]@,
            whole == eval_args(fo, fuel as nat, env@, argsv, 0),
            start == old(out)@,
            out@.len() >= start.len(),
            out@.subrange(0, start.len() as int) == start,
            args_so_far(
                whole,
                out@.subrange(start.len() as int, out@.len() as int),
                values_view(vals@),
                eval_args(fo, fuel as nat, env@, argsv, i as nat),
            ),
        decreases args.len() - i,
    {
        let ghost before = out@;
        let ghost vals_before = values_view(vals@);
        let ghost o = eval_expr(fo, fuel as nat, env@, argsv[i as int]);
        let ghost rest = eval_args(fo, fuel as nat, env@, argsv, (i + 1) as nat);
        proof {
            assert(decreases_to!(*args => args@));
            assert(decreases_to!(args@ => args@[i as int]));
            assert(argsv[i as int] == args@[i as int]@);
        }
        let v = match eval(floats, fuel, env, &args[i], out) {
            Ok(v) => v,
            Err(er) => {
                assert(out@.subrange(start.len() as int, out@.len() as int) =~= before.subrange(
                    start.len() as int,
                    before.len() as int,
                ) + o.text);
                assert(o.result == Err::<ValueV, ErrorV>(er@));
                assert(eval_args(fo, fuel as nat, env@, argsv, i as nat).text == o.text);
                assert(whole.text =~= out@.subrange(start.len() as int, out@.len() as int));
                assert(out@ =~= start + whole.text);
                return Err(er);
            },
        };
        vals.push(v);
        proof {
            assert(eval_args(fo, fuel as nat, env@, argsv, i as nat) == Outcome {
                text: o.text + rest.text,
                result: match rest.result {
                    Ok(vs) => Ok(seq![v@] + vs),
                    Err(e) => Err::<Seq<ValueV>, ErrorV>(e),
                },
            });
            assert(out@.subrange(start.len() as int, out@.len() as int) =~= before.subrange(
                start.len() as int,
                before.len() as int,
            ) + o.text);
            assert(out@.subrange(0, start.len() as int) =~= before.subrange(0, start.len() as int));
            assert(values_view(vals@) =~= vals_before.push(v@));
            assert(whole.text =~= out@.subrange(start.len() as int, out@.len() as int) + rest.text);
            match rest.result {
                Ok(vs) => {
                    assert(vals_before + (seq![v@] + vs) =~= vals_before.push(v@) + vs);
                },
                Err(_) => {},
            }
        }
        i = i + 1;
    }
    proof {
        assert(out@ =~= start + whole.text);
        assert(values_view(vals@) + seq![] =~= values_view(vals@));
    }
    Ok(vals)
}

/// Evaluates `e` in `env`, appending what it prints to `out`.
fn eval<F: Fn(FloatQuery) -> FloatAnswer>(
    floats: &F,
    fuel: u64,
    env: &Environment,
    e: &Expr,
    out: &mut String,
) -> (r: Result<Value, RuntimeError>)
    requires
        answers_floats(floats),
    ensures
        final(out)@ == old(out)@ + eval_expr(oracle_of(floats), fuel as nat, env@, e@).text,
        value_result(r) == eval_expr(oracle_of(floats), fuel as nat, env@, e@).result,
    decreases fuel, 0int, e, 1int,
{
    let ghost fo = oracle_of(floats);
    proof {
        lemma_expr_view(*e);
    }
    match e {
        Expr::Binary(l, op, x) => {
            let lv = match eval(floats, fuel, env, l, out) {
                Ok(v) => v,
                Err(er) => return Err(er),
            };
            let rv = match eval(floats, fuel, env, x, out) {
                Ok(v) => v,
                Err(er) => {
                    assert(final(out)@ =~= old(out)@ + eval_expr(fo, fuel as nat, env@, e@).text);
                    return Err(er);
                },
            };
            assert(out@ =~= old(out)@ + eval_expr(fo, fuel as nat, env@, e@).text);
            binary(floats, lv, op, rv)
        },
        Expr::Logical(l, op, x) => {
            let lv = match eval(floats, fuel, env, l, out) {
                Ok(v) => v,
                Err(er) => return Err(er),
            };
            let rv = match eval(floats, fuel, env, x, out) {
                Ok(v) => v,
                Err(er) => {
                    assert(final(out)@ =~= old(out)@ + eval_expr(fo, fuel as nat, env@, e@).text);
                    return Err(er);
                },
            };
            assert(out@ =~= old(out)@ + eval_expr(fo, fuel as nat, env@, e@).text);
            logical(lv, op, rv)
        },
        Expr::Unary(op, x) => {
            let v = match eval(floats, fuel, env, x, out) {
                Ok(v) => v,
                Err(er) => return Err(er),
            };
            unary(floats, op, v)
        },
        Expr::FuncCall(callee, args) => {
            let vals = match eval_arguments(floats, fuel, env, args, out) {
                Ok(vs) => vs,
                Err(er) => return Err(er),
            };
            let (fenv, body) = match resolve(env, callee, &vals) {
                Ok(p) => p,
                Err(er) => return Err(er),
            };
            if fuel == 0 {
                return Err(RuntimeError::StepLimit);
            }
            let mut fenv = fenv;
            let res = execute(floats, fuel - 1, &mut fenv, &body, out);
            assert(out@ =~= old(out)@ + eval_expr(fo, fuel as nat, env@, e@).text);
            match res {
                Ok(Flow::Return(v)) => Ok(v),
                Ok(Flow::Normal) => Ok(Value::Nil),
                Ok(Flow::Break(t)) => Err(RuntimeError::BreakOutsideLoop(t)),
                Ok(Flow::Continue(t)) => Err(RuntimeError::ContinueOutsideLoop(t)),
                Err(er) => Err(er),
            }
        },
        Expr::Literal(t) => {
            assert(old(out)@ + seq![] =~= old(out)@);
            literal(floats, t)
        },
        Expr::Variable(t) => {
            assert(old(out)@ + seq![] =~= old(out)@);
            variable(env, t)
        },
        Expr::Grouping(x) => eval(floats, fuel, env, x, out),
        Expr::Assignment(_, _) => {
            assert(old(out)@ + seq![] =~= old(out)@);
            Err(RuntimeError::Unreachable)
        },
    }
}

/// Executes the statements of a block in order, until one returns or fails.
fn execute_block<F: Fn(FloatQuery) -> FloatAnswer>(
    floats: &F,
    fuel: u64,
    env: &mut Environment,
    ss: &Vec<Stmt>,
    out: &mut String,
) -> (r: Result<Flow, RuntimeError>)
    requires
        answers_floats(floats),
    ensures
        final(out)@ == old(out)@ + exec_block(
            oracle_of(floats),
            fuel as nat,
            old(env)@,
            crate::ast::stmts_view(ss@),
            0,
        ).text,
        match r {
            Ok(fl) => exec_block(oracle_of(floats), fuel as nat, old(env)@, crate::ast::stmts_view(ss@), 0).result
                == Ok::<(Bindings, FlowV), ErrorV>((final(env)@, fl@)),
            Err(er) => exec_block(oracle_of(floats), fuel as nat, old(env)@, crate::ast::stmts_view(ss@), 0).result
                == Err::<(Bindings, FlowV), ErrorV>(er@),
        },
    decreases fuel, 1int, ss, 1int,
{
    let ghost fo = oracle_of(floats);
    let ghost ssv = crate::ast::stmts_view(ss@);
    let ghost whole = exec_block(fo, fuel as nat, env@, ssv, 0);
    let ghost start = out@;
    let ghost mut done: Seq<char> = seq![];
    proof {
        lemma_stmts_view(ss@);
        assert(whole == after(done, whole)) by {
            assert(whole.text =~= done + whole.text);
        }
        assert(out@ =~= start + done);
    }
    let mut i: usize = 0;
    while i < ss.len()
        invariant
            i <= ss.len(),
            answers_floats(floats),
            fo == oracle_of(floats),
            ssv == crate::ast::stmts_view(ss@),
            ssv.len() == ss@.len(),
            forall|j: int| 0 <= j < ss@.len() ==> #[trigger] ssv[j] == ss@[j]@,
            whole == exec_block(fo, fuel as nat, old(env)@, ssv, 0),
            start == old(out)@,
            out@ == start + done,
            whole == after(done, exec_block(fo, fuel as nat, env@, ssv, i as nat)),
        decreases ss.len() - i,
    {
        let ghost env_before = env@;
        let ghost o = exec_stmt(fo, fuel as nat, env@, ssv[i as int]);
        proof {
            assert(decreases_to!(*ss => ss@));
            assert(decreases_to!(ss@ => ss@[i as int]));
            assert(ssv[i as int] == ss@[i as int]@);
        }
        let res = execute(floats, fuel, env, &ss[i], out);
        match res {
            Ok(Flow::Normal) => {
                proof {
                    let rest = exec_block(fo, fuel as nat, env@, ssv, (i + 1) as nat);
                    assert(exec_block(fo, fuel as nat, env_before, ssv, i as nat) == after(o.text, rest));
                    assert(whole.text =~= (done + o.text) + rest.text);
                    done = done + o.text;
                }
            },
            Ok(fl) => {
                assert(exec_block(fo, fuel as nat, env_before, ssv, i as nat) == o);
                assert(out@ =~= start + whole.text);
                return Ok(fl);
            },
            Err(er) => {
                assert(exec_block(fo, fuel as nat, env_before, ssv, i as nat) == o);
                assert(out@ =~= start + whole.text);
                return Err(er);
            },
        }
        i = i + 1;
    }
    assert(out@ =~= start + whole.text);
    Ok(Flow::Normal)
}

/// The turns of a loop whose condition held: runs `body` until it returns or fails, each
/// turn with one unit less of `fuel`.
fn execute_loop<F: Fn(FloatQuery) -> FloatAnswer>(
    floats: &F,
    fuel: u64,
    env: &mut Environment,
    body: &Stmt,
    out: &mut String,
) -> (r: Result<Flow, RuntimeError>)
    requires
        answers_floats(floats),
    ensures
        final(out)@ == old(out)@ + run_loop(oracle_of(floats), fuel as nat, old(env)@, body@).text,
        match r {
            Ok(fl) => run_loop(oracle_of(floats), fuel as nat, old(env)@, body@).result == Ok::<
                (Bindings, FlowV),
                ErrorV,
            >((final(env)@, fl@)),
            Err(er) => run_loop(oracle_of(floats), fuel as nat, old(env)@, body@).result == Err::<
                (Bindings, FlowV),
                ErrorV,
            >(er@),
        },
    decreases fuel, 1int, body, 0int,
{
    let ghost fo = oracle_of(floats);
    let ghost whole = run_loop(fo, fuel as nat, env@, body@);
    let ghost start = out@;
    let ghost mut done: Seq<char> = seq![];
    proof {
        assert(whole == after(done, whole)) by {
            assert(whole.text =~= done + whole.text);
        }
        assert(out@ =~= start + done);
    }
    let mut k: u64 = fuel;
    while k > 0
        invariant
            k <= fuel,
            answers_floats(floats),
            fo == oracle_of(floats),
            whole == run_loop(fo, fuel as nat, old(env)@, body@),
            start == old(out)@,
            out@ == start + done,
            whole == after(done, run_loop(fo, k as nat, env@, body@)),
        decreases k,
    {
        let ghost env_before = env@;
        let ghost o = exec_stmt(fo, (k - 1) as nat, env@, body@);
        let res = execute(floats, k - 1, env, body, out);
        match res {
            Ok(Flow::Normal) => {
                proof {
                    let rest = run_loop(fo, (k - 1) as nat, env@, body@);
                    assert(run_loop(fo, k as nat, env_before, body@) == after(o.text, rest));
                    assert(whole.text =~= (done + o.text) + rest.text);
                    done = done + o.text;
                }
            },
            Ok(Flow::Continue(_)) => {
                proof {
                    let rest = run_loop(fo, (k - 1) as nat, env@, body@);
                    assert(run_loop(fo, k as nat, env_before, body@) == after(o.text, rest));
                    assert(whole.text =~= (done + o.text) + rest.text);
                    done = done + o.text;
                }
            },
            Ok(Flow::Break(_)) => {
                assert(out@ =~= start + whole.text);
                return Ok(Flow::Normal);
            },
            Ok(fl) => {
                assert(run_loop(fo, k as nat, env_before, body@) == o);
                assert(out@ =~= start + whole.text);
                return Ok(fl);
            },
            Err(er) => {
                assert(run_loop(fo, k as nat, env_before, body@) == o);
                assert(out@ =~= start + whole.text);
                return Err(er);
            },
        }
        k = k - 1;
    }
    assert(out@ =~= start + whole.text);
    Err(RuntimeError::StepLimit)
}

/// The name a declaration's type token gives, if it gives one.
fn declared_type(t: &Token) -> (r: Option<&String>)
    ensures
        match r {
            Some(s) => crate::semantics::type_name_of(*t) == Some(s@),
            None => crate::semantics::type_name_of(*t) is None,
        },
{
    match &t.kind {
        TokenKind::Symbol(s) => Some(s),
        TokenKind::PrimitiveType(s) => Some(s),
        _ => None,
    }
}

/// Executes `s` in `env`, appending what it prints to `out`.
fn execute<F: Fn(FloatQuery) -> FloatAnswer>(
    floats: &F,
    fuel: u64,
    env: &mut Environment,
    s: &Stmt,
    out: &mut String,
) -> (r: Result<Flow, RuntimeError>)
    requires
        answers_floats(floats),
    ensures
        final(out)@ == old(out)@ + exec_stmt(oracle_of(floats), fuel as nat, old(env)@, s@).text,
        match r {
            Ok(fl) => exec_stmt(oracle_of(floats), fuel as nat, old(env)@, s@).result == Ok::<
                (Bindings, FlowV),
                ErrorV,
            >((final(env)@, fl@)),
            Err(er) => exec_stmt(oracle_of(floats), fuel as nat, old(env)@, s@).result == Err::<
                (Bindings, FlowV),
                ErrorV,
            >(er@),
        },
    decreases fuel, 1int, s, 1int,
{
    let ghost fo = oracle_of(floats);
    proof {
        lemma_stmt_view(*s);
    }
    match s {
        Stmt::Return(_, e) => match e {
            Some(x) => {
                let v = match eval(floats, fuel, env, x, out) {
                    Ok(v) => v,
                    Err(er) => return Err(er),
                };
                Ok(Flow::Return(v))
            },
            None => {
                assert(old(out)@ + seq![] =~= old(out)@);
                Ok(Flow::Return(Value::Nil))
            },
        },
        Stmt::Expression(e) => {
            proof {
                lemma_expr_view(*e);
            }
            match e {
                Expr::Assignment(target, rhs) => {
                    let v = match eval(floats, fuel, env, rhs, out) {
                        Ok(v) => v,
                        Err(er) => return Err(er),
                    };
                    proof {
                        lemma_expr_view(**target);
                    }
                    match &**target {
                        Expr::Variable(t) => match &t.kind {
                            TokenKind::Symbol(name) => {
                                env.update(name.clone(), v);
                                Ok(Flow::Normal)
                            },
                            _ => Err(RuntimeError::Unreachable),
                        },
                        _ => Err(RuntimeError::Unreachable),
                    }
                },
                _ => {
                    match eval(floats, fuel, env, e, out) {
                        Ok(_) => Ok(Flow::Normal),
                        Err(er) => Err(er),
                    }
                },
            }
        },
        Stmt::Let(name_tk, typ_tk, e) => {
            let name = match &name_tk.kind {
                TokenKind::Symbol(n) => n.clone(),
                _ => String::new(),
            };
            let tn = match declared_type(typ_tk) {
                Some(t) => t,
                None => {
                    assert(old(out)@ + seq![] =~= old(out)@);
                    return Err(RuntimeError::Unreachable);
                },
            };
            if text_equals(tn.as_str(), "void") {
                assert(old(out)@ + seq![] =~= old(out)@);
                return Err(RuntimeError::VoidVariable(typ_tk.duplicate(), name));
            }
            let v = match eval(floats, fuel, env, e, out) {
                Ok(v) => v,
                Err(er) => return Err(er),
            };
            if env.has(name.as_str()) {
                return Err(RuntimeError::RedefinedVariable(name_tk.duplicate(), name));
            }
            env.insert(name, v);
            Ok(Flow::Normal)
        },
        Stmt::Print(e, newline) => {
            let v = match eval(floats, fuel, env, e, out) {
                Ok(v) => v,
                Err(er) => return Err(er),
            };
            v.show(floats, out);
            if *newline {
                push_char(out, '\n');
            }
            assert(out@ =~= old(out)@ + exec_stmt(fo, fuel as nat, old(env)@, s@).text);
            Ok(Flow::Normal)
        },
        Stmt::Block(ss) => execute_block(floats, fuel, env, ss, out),
        Stmt::While(c, body) => {
            let cv = match eval(floats, fuel, env, c, out) {
                Ok(v) => v,
                Err(er) => return Err(er),
            };
            match cv {
                Value::Bool(x) => if x {
                    let res = execute_loop(floats, fuel, env, body, out);
                    assert(out@ =~= old(out)@ + exec_stmt(fo, fuel as nat, old(env)@, s@).text);
                    res
                } else {
                    Ok(Flow::Normal)
                },
                _ => Err(RuntimeError::NotBoolean(c.token().duplicate())),
            }
        },
        Stmt::If(c, then_branch, else_branch) => {
            let cv = match eval(floats, fuel, env, c, out) {
                Ok(v) => v,
                Err(er) => return Err(er),
            };
            match cv {
                Value::Bool(x) => if x {
                    let res = execute(floats, fuel, env, then_branch, out);
                    assert(out@ =~= old(out)@ + exec_stmt(fo, fuel as nat, old(env)@, s@).text);
                    res
                } else {
                    match else_branch {
                        Some(b) => {
                            let res = execute(floats, fuel, env, b, out);
                            assert(out@ =~= old(out)@ + exec_stmt(fo, fuel as nat, old(env)@, s@).text);
                            res
                        },
                        None => Ok(Flow::Normal),
                    }
                },
                _ => Err(RuntimeError::NotBoolean(c.token().duplicate())),
            }
        },
        Stmt::Func(name_tk, params, _, body) => {
            assert(old(out)@ + seq![] =~= old(out)@);
            match &name_tk.kind {
                TokenKind::Symbol(name) => {
                    if env.has(name.as_str()) {
                        return Err(RuntimeError::RedefinedFunction(name_tk.duplicate(), name.clone()));
                    }
                    let f = Value::Function(name.clone(), copy_params(params), Box::new(body.duplicate()));
                    env.insert(name.clone(), f);
                    Ok(Flow::Normal)
                },
                _ => Err(RuntimeError::Unreachable),
            }
        },
        Stmt::Break(t) => {
            assert(old(out)@ + seq![] =~= old(out)@);
            Ok(Flow::Break(t.duplicate()))
        },
        Stmt::Continue(t) => {
            assert(old(out)@ + seq![] =~= old(out)@);
            Ok(Flow::Continue(t.duplicate()))
        },
    }
}

/// What a run gives: the text the program printed, and the error it stopped on, if any.
pub struct Run {
    pub output: String,
    pub error: Option<RuntimeError>,
}

/// A program, and the global bindings it runs over.
pub struct Interpreter {
    stmts: Vec<Stmt>,
    globals: Environment,
}

impl Interpreter {
    /// The program's top-level statements.
    pub closed spec fn statements(&self) -> Seq<StmtV> {
        crate::ast::stmts_view(self.stmts@)
    }

    /// The global bindings.
    pub closed spec fn globals(&self) -> Bindings {
        self.globals@
    }

    /// An interpreter for the program `stmts`, with no global bindings yet.
    pub fn new(stmts: Vec<Stmt>) -> (r: Self)
        ensures
            r.statements() == crate::ast::stmts_view(stmts@),
            r.globals() == Map::<Seq<char>, ValueV>::empty(),
    {
        Interpreter { stmts: stmts, globals: Environment::new() }
    }

    /// Runs the program: its declarations, which must be all there is at the top level,
    /// then the body of its `main` function. Floating-point arithmetic is asked of `floats`;
    /// `fuel` bounds how deeply calls nest plus the loop turns around them (see
    /// [`crate::semantics`]); calls one after another each get the same budget.
    /// Where the run ends without an error, the globals are those the declarations left;
    /// else they are as they were.
    pub fn interpret<F: Fn(FloatQuery) -> FloatAnswer>(&mut self, floats: &F, fuel: u64) -> (r: Run)
        requires
            answers_floats(floats),
        ensures
            final(self).statements() == old(self).statements(),
            r.output@ == run_program(
                oracle_of(floats),
                fuel as nat,
                old(self).globals(),
                old(self).statements(),
            ).text,
            match r.error {
                None => run_program(oracle_of(floats), fuel as nat, old(self).globals(), old(self).statements()).result
                    == Ok::<Bindings, ErrorV>(final(self).globals()),
                Some(e) => run_program(oracle_of(floats), fuel as nat, old(self).globals(), old(self).statements()).result
                    == Err::<Bindings, ErrorV>(e@) && final(self).globals() == old(self).globals(),
            },
    {
        let ghost fo = oracle_of(floats);
        let ghost sv = crate::ast::stmts_view(self.stmts@);
        let ghost whole = run_declarations(fo, fuel as nat, self.globals@, sv, 0);
        let mut out = String::new();
        let mut globals = Environment::copy_of(&self.globals);
        proof {
            lemma_stmts_view(self.stmts@);
            assert(whole == after(out@, whole)) by {
                assert(whole.text =~= out@ + whole.text);
            }
        }
        let mut i: usize = 0;
        while i < self.stmts.len()
            invariant
                i <= self.stmts@.len(),
                answers_floats(floats),
                fo == oracle_of(floats),
                sv == crate::ast::stmts_view(self.stmts@),
                sv.len() == self.stmts@.len(),
                forall|j: int| 0 <= j < self.stmts@.len() ==> #[trigger] sv[j] == self.stmts@[j]@,
                whole == run_declarations(fo, fuel as nat, self.globals@, sv, 0),
                whole == after(out@, run_declarations(fo, fuel as nat, globals@, sv, i as nat)),
            decreases self.stmts.len() - i,
        {
            let stmt = &self.stmts[i];
            assert(sv[i as int] == stmt@);
            proof {
                lemma_stmt_view(*stmt);
            }
            let declaration = match stmt {
                Stmt::Func(..) => true,
                Stmt::Let(..) => true,
                _ => false,
            };
            if !declaration {
                let err = if stmt.has_token() {
                    RuntimeError::TopLevelStatement(stmt.token().duplicate())
                } else {
                    RuntimeError::MissingToken
                };
                assert(out@ =~= whole.text);
                return Run { output: out, error: Some(err) };
            }
            let ghost env_before = globals@;
            let ghost o = exec_stmt(fo, fuel as nat, globals@, sv[i as int]);
            match execute(floats, fuel, &mut globals, stmt, &mut out) {
                Ok(_) => {
                    proof {
                        let rest = run_declarations(fo, fuel as nat, globals@, sv, (i + 1) as nat);
                        assert(run_declarations(fo, fuel as nat, env_before, sv, i as nat) == after(
                            o.text,
                            rest,
                        ));
                        assert(whole.text =~= out@ + rest.text);
                    }
                },
                Err(e) => {
                    assert(out@ =~= whole.text);
                    return Run { output: out, error: Some(e) };
                },
            }
            i = i + 1;
        }
        assert(out@ =~= whole.text);
        if !globals.has("main") {
            return Run { output: out, error: Some(RuntimeError::MainNotFound) };
        }
        match globals.lookup("main") {
            Value::Function(_, _, body) => {
                let mut main_env = Environment::copy_of(&globals);
                match execute(floats, fuel, &mut main_env, &body, &mut out) {
                    Ok(Flow::Break(t)) => {
                        return Run { output: out, error: Some(RuntimeError::BreakOutsideLoop(t)) };
                    },
                    Ok(Flow::Continue(t)) => {
                        return Run { output: out, error: Some(RuntimeError::ContinueOutsideLoop(t)) };
                    },
                    Ok(_) => {},
                    Err(e) => {
                        return Run { output: out, error: Some(e) };
                    },
                }
                self.globals = globals;
                Run { output: out, error: None }
            },
            _ => Run { output: out, error: Some(RuntimeError::MainNotFunction) },
        }
    }
}

} // verus!
