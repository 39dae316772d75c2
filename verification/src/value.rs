//! The values that programs compute, and the arithmetic on floating-point numbers, which
//! the caller supplies.
use vstd::prelude::*;

use crate::ast::{copy_params, Stmt, StmtV};
use crate::text::push_char;
use crate::token::Token;

verus! {

/// A value. A floating-point number is held as the bits of its IEEE 754 double
/// representation; arithmetic on it is asked of a [`FloatQuery`] answerer.
#[derive(Debug)]
pub enum Value {
    Nil,
    Bool(bool),
    Int(i64),
    Float(u64),
    Str(String),
    Function(String, Vec<(Token, Token)>, Box<Stmt>),
}

/// The mathematical model of a [`Value`].
pub enum ValueV {
    Nil,
    Bool(bool),
    Int(i64),
    Float(u64),
    Str(Seq<char>),
    Function(Seq<char>, Seq<(Token, Token)>, StmtV),
}

impl View for Value {
    type V = ValueV;

    open spec fn view(&self) -> ValueV {
        match self {
            Value::Nil => ValueV::Nil,
            Value::Bool(b) => ValueV::Bool(*b),
            Value::Int(i) => ValueV::Int(*i),
            Value::Float(f) => ValueV::Float(*f),
            Value::Str(s) => ValueV::Str(s@),
            Value::Function(n, ps, b) => ValueV::Function(n@, ps@, (**b)@),
        }
    }
}

/// An arithmetic operation on two floating-point numbers.
#[derive(Debug, Clone, Copy, PartialEq, Eq)]
pub enum FloatArith {
    Add,
    Sub,
    Mul,
    Div,
    Rem,
}

/// A comparison of two floating-point numbers.
#[derive(Debug, Clone, Copy, PartialEq, Eq)]
pub enum FloatCompare {
    Less,
    LessEq,
    Greater,
    GreaterEq,
    Equal,
    NotEqual,
}

/// A question about floating-point numbers, given by their bits.
#[derive(Debug, PartialEq)]
pub enum FloatQuery {
    /// The number a literal denotes, if it denotes one.
    Parse(String),
    /// The negation of a number.
    Negate(u64),
    /// The result of an arithmetic operation.
    Arith(FloatArith, u64, u64),
    /// The outcome of a comparison.
    Compare(FloatCompare, u64, u64),
    /// The text a number is printed as.
    Show(u64),
}

/// The mathematical model of a [`FloatQuery`].
pub enum FloatQueryV {
    Parse(Seq<char>),
    Negate(u64),
    Arith(FloatArith, u64, u64),
    Compare(FloatCompare, u64, u64),
    Show(u64),
}

impl View for FloatQuery {
    type V = FloatQueryV;

    open spec fn view(&self) -> FloatQueryV {
        match self {
            FloatQuery::Parse(s) => FloatQueryV::Parse(s@),
            FloatQuery::Negate(x) => FloatQueryV::Negate(*x),
            FloatQuery::Arith(k, x, y) => FloatQueryV::Arith(*k, *x, *y),
            FloatQuery::Compare(k, x, y) => FloatQueryV::Compare(*k, *x, *y),
            FloatQuery::Show(x) => FloatQueryV::Show(*x),
        }
    }
}

/// An answer to a [`FloatQuery`].
#[derive(Debug, PartialEq)]
pub enum FloatAnswer {
    /// A number, by its bits.
    Number(u64),
    /// A literal that denotes no number.
    NotANumber,
    /// The outcome of a comparison.
    Truth(bool),
    /// A number's text.
    Text(String),
}

/// The mathematical model of a [`FloatAnswer`].
pub enum FloatAnswerV {
    Number(u64),
    NotANumber,
    Truth(bool),
    Text(Seq<char>),
}

impl View for FloatAnswer {
    type V = FloatAnswerV;

    open spec fn view(&self) -> FloatAnswerV {
        match self {
            FloatAnswer::Number(x) => FloatAnswerV::Number(*x),
            FloatAnswer::NotANumber => FloatAnswerV::NotANumber,
            FloatAnswer::Truth(b) => FloatAnswerV::Truth(*b),
            FloatAnswer::Text(t) => FloatAnswerV::Text(t@),
        }
    }
}

/// What answers the floating-point questions that evaluation asks.
pub type FloatOracle = spec_fn(FloatQueryV) -> FloatAnswerV;

/// Whether `f` can answer every question, and gives answers that depend on the question's
/// model alone.
pub open spec fn answers_floats<F: Fn(FloatQuery) -> FloatAnswer>(f: &F) -> bool {
    &&& forall|q: FloatQuery| call_requires(*f, (q,))
    &&& forall|q1: FloatQuery, q2: FloatQuery, a: FloatAnswer, b: FloatAnswer|
        call_ensures(*f, (q1,), a) && call_ensures(*f, (q2,), b) && q1@ == q2@ ==> a@ == b@
}

/// The answers that `f` gives.
pub open spec fn oracle_of<F: Fn(FloatQuery) -> FloatAnswer>(f: &F) -> FloatOracle {
    |qv: FloatQueryV|
        {
            let (q, a) = choose|q: FloatQuery, a: FloatAnswer|
                q@ == qv && #[trigger] call_ensures(*f, (q,), a);
            a@
        }
}

/// Asks `f` a question.
pub fn ask<F: Fn(FloatQuery) -> FloatAnswer>(f: &F, q: FloatQuery) -> (a: FloatAnswer)
    requires
        answers_floats(f),
    ensures
        a@ == (oracle_of(f))(q@),
{
    let ghost gq = q;
    let a = f(q);
    proof {
        assert(call_ensures(*f, (gq,), a));
        let (q1, a1) = choose|q1: FloatQuery, a1: FloatAnswer|
            q1@ == gq@ && #[trigger] call_ensures(*f, (q1,), a1);
        assert(a1@ == a@);
    }
    a
}

/// The bits of a number that an answer gives; 0 where it gives none.
pub open spec fn answer_bits(a: FloatAnswerV) -> u64 {
    match a {
        FloatAnswerV::Number(b) => b,
        _ => 0,
    }
}

/// The truth that an answer gives; false where it gives none.
pub open spec fn answer_truth(a: FloatAnswerV) -> bool {
    match a {
        FloatAnswerV::Truth(b) => b,
        _ => false,
    }
}

/// The text that an answer gives; empty where it gives none.
pub open spec fn answer_text(a: FloatAnswerV) -> Seq<char> {
    match a {
        FloatAnswerV::Text(s) => s,
        _ => seq![],
    }
}

/// The name of a value's type.
pub open spec fn typ_text(v: ValueV) -> Seq<char> {
    match v {
        ValueV::Nil => "nil"@,
        ValueV::Bool(_) => "bool"@,
        ValueV::Int(_) => "int"@,
        ValueV::Float(_) => "float"@,
        ValueV::Str(_) => "string"@,
        ValueV::Function(..) => "function"@,
    }
}

/// The decimal digits of a natural number.
pub open spec fn nat_text(n: nat) -> Seq<char>
    decreases n,
{
    if n < 10 {
        seq![digit_char(n)]
    } else {
        nat_text(n / 10).push(digit_char(n % 10))
    }
}

/// The character of a decimal digit.
pub open spec fn digit_char(d: nat) -> char {
    if d == 0 {
        '0'
    } else if d == 1 {
        '1'
    } else if d == 2 {
        '2'
    } else if d == 3 {
        '3'
    } else if d == 4 {
        '4'
    } else if d == 5 {
        '5'
    } else if d == 6 {
        '6'
    } else if d == 7 {
        '7'
    } else if d == 8 {
        '8'
    } else {
        '9'
    }
}

/// The decimal text of an integer, with a minus sign where it is negative.
pub open spec fn int_text(i: int) -> Seq<char> {
    if i < 0 {
        seq!['-'] + nat_text((-i) as nat)
    } else {
        nat_text(i as nat)
    }
}

/// The text a value is printed as.
pub open spec fn display(fo: FloatOracle, v: ValueV) -> Seq<char> {
    match v {
        ValueV::Nil => "nil"@,
        ValueV::Bool(b) => if b {
            "true"@
        } else {
            "false"@
        },
        ValueV::Int(i) => int_text(i as int),
        ValueV::Float(f) => answer_text(fo(FloatQueryV::Show(f))),
        ValueV::Str(s) => s,
        ValueV::Function(name, _, _) => "<fn "@ + name + ">"@,
    }
}

/// Appends the decimal digits of `n`.
pub fn push_nat_text(s: &mut String, n: u64)
    ensures
        final(s)@ == old(s)@ + nat_text(n as nat),
    decreases n,
{
    if n >= 10 {
        push_nat_text(s, n / 10);
    }
    let d = n % 10;
    let c = if d == 0 {
        '0'
    } else if d == 1 {
        '1'
    } else if d == 2 {
        '2'
    } else if d == 3 {
        '3'
    } else if d == 4 {
        '4'
    } else if d == 5 {
        '5'
    } else if d == 6 {
        '6'
    } else if d == 7 {
        '7'
    } else if d == 8 {
        '8'
    } else {
        '9'
    };
    push_char(s, c);
    proof {
        if n >= 10 {
            assert(nat_text(n as nat) == nat_text((n / 10) as nat).push(digit_char((n % 10) as nat)));
        }
    }
    assert(final(s)@ =~= old(s)@ + nat_text(n as nat));
}

/// Appends the decimal text of `i`.
pub fn push_int_text(s: &mut String, i: i64)
    ensures
        final(s)@ == old(s)@ + int_text(i as int),
{
    if i < 0 {
        push_char(s, '-');
        let m: u64 = if i == i64::MIN {
            9223372036854775808u64
        } else {
            (-i) as u64
        };
        push_nat_text(s, m);
        assert(s@ =~= old(s)@ + int_text(i as int));
    } else {
        push_nat_text(s, i as u64);
    }
}

impl Value {
    /// The name of this value's type.
    pub fn typ(&self) -> (r: String)
        ensures
            r@ == typ_text(self@),
    {
        match self {
            Value::Nil => String::from_str("nil"),
            Value::Bool(_) => String::from_str("bool"),
            Value::Int(_) => String::from_str("int"),
            Value::Float(_) => String::from_str("float"),
            Value::Str(_) => String::from_str("string"),
            Value::Function(..) => String::from_str("function"),
        }
    }

    /// A copy of this value.
    pub fn duplicate(&self) -> (r: Value)
        ensures
            r@ == self@,
    {
        match self {
            Value::Nil => Value::Nil,
            Value::Bool(b) => Value::Bool(*b),
            Value::Int(i) => Value::Int(*i),
            Value::Float(f) => Value::Float(*f),
            Value::Str(s) => Value::Str(s.clone()),
            Value::Function(n, ps, b) => Value::Function(
                n.clone(),
                copy_params(ps),
                Box::new(b.duplicate()),
            ),
        }
    }

    /// Appends the text this value is printed as; a floating-point number's text is
    /// asked of `floats`.
    pub fn show<F: Fn(FloatQuery) -> FloatAnswer>(&self, floats: &F, out: &mut String)
        requires
            answers_floats(floats),
        ensures
            final(out)@ == old(out)@ + display(oracle_of(floats), self@),
    {
        match self {
            Value::Nil => out.append("nil"),
            Value::Bool(b) => if *b {
                out.append("true")
            } else {
                out.append("false")
            },
            Value::Int(i) => push_int_text(out, *i),
            Value::Float(f) => {
                let a = ask(floats, FloatQuery::Show(*f));
                match a {
                    FloatAnswer::Text(t) => out.append(t.as_str()),
                    _ => {
                        assert(old(out)@ + seq![] =~= old(out)@);
                    },
                }
            },
            Value::Str(s) => out.append(s.as_str()),
            Value::Function(name, _, _) => {
                out.append("<fn ");
                out.append(name.as_str());
                out.append(">");
                assert(final(out)@ =~= old(out)@ + ("<fn "@ + name@ + ">"@));
            },
        }
    }
}

} // verus!
