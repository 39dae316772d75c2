//! The syntax tree built by the parser.
use vstd::prelude::*;

use crate::token::Token;

verus! {

/// An expression.
#[derive(Debug)]
pub enum Expr {
    Binary(Box<Expr>, Token, Box<Expr>),
    Unary(Token, Box<Expr>),
    FuncCall(Box<Expr>, Vec<Expr>),
    Literal(Token),
    Variable(Token),
    Grouping(Box<Expr>),
    Assignment(Box<Expr>, Box<Expr>),
    Logical(Box<Expr>, Token, Box<Expr>),
}

/// A statement.
///
/// ```text
/// stmt ::= ("print" | "println") expr ";" |
///          return expr? ";" |
///          break ";" |
///          continue ";" |
///          let symbol ":" (symbol | PrimitiveType) = expr ";" |
///          while "(" expr ")" { stmt* } |
///          if "(" expr ")" { stmt* } (else ({ stmt* } | if-stmt))? |
///          "{" stmt* "}" |
///          fn symbol "(" (param ("," param)*)? ")" (symbol | PrimitiveType) { stmt* },
///              where param ::= symbol ":" (symbol | PrimitiveType) |
///          expr ";"
/// ```
///
/// `break` ends the innermost loop and `continue` goes on to its next turn.
#[derive(Debug)]
pub enum Stmt {
    Print(Expr, bool),
    Return(Token, Option<Expr>),
    Break(Token),
    Continue(Token),
    Let(Token, Token, Expr),
    While(Expr, Box<Stmt>),
    If(Expr, Box<Stmt>, Option<Box<Stmt>>),
    Block(Vec<Stmt>),
    Func(Token, Vec<(Token, Token)>, Token, Box<Stmt>),
    Expression(Expr),
}

/// The mathematical model of an [`Expr`]: the same tree, with sequences for vectors.
pub enum ExprV {
    Binary(Box<ExprV>, Token, Box<ExprV>),
    Unary(Token, Box<ExprV>),
    FuncCall(Box<ExprV>, Seq<ExprV>),
    Literal(Token),
    Variable(Token),
    Grouping(Box<ExprV>),
    Assignment(Box<ExprV>, Box<ExprV>),
    Logical(Box<ExprV>, Token, Box<ExprV>),
}

/// The mathematical model of a [`Stmt`].
pub enum StmtV {
    Print(ExprV, bool),
    Return(Token, Option<ExprV>),
    Break(Token),
    Continue(Token),
    Let(Token, Token, ExprV),
    While(ExprV, Box<StmtV>),
    If(ExprV, Box<StmtV>, Option<Box<StmtV>>),
    Block(Seq<StmtV>),
    Func(Token, Seq<(Token, Token)>, Token, Box<StmtV>),
    Expression(ExprV),
}

/// The model of an expression.
pub open spec fn expr_view(e: Expr) -> ExprV
    decreases e,
{
    match e {
        Expr::Binary(l, t, r) => ExprV::Binary(Box::new(expr_view(*l)), t, Box::new(expr_view(*r))),
        Expr::Unary(t, x) => ExprV::Unary(t, Box::new(expr_view(*x))),
        Expr::FuncCall(name, args) => ExprV::FuncCall(Box::new(expr_view(*name)), exprs_view(args@)),
        Expr::Literal(t) => ExprV::Literal(t),
        Expr::Variable(t) => ExprV::Variable(t),
        Expr::Grouping(x) => ExprV::Grouping(Box::new(expr_view(*x))),
        Expr::Assignment(l, r) => ExprV::Assignment(Box::new(expr_view(*l)), Box::new(expr_view(*r))),
        Expr::Logical(l, t, r) => ExprV::Logical(Box::new(expr_view(*l)), t, Box::new(expr_view(*r))),
    }
}

/// The models of a sequence of expressions.
pub open spec fn exprs_view(s: Seq<Expr>) -> Seq<ExprV>
    decreases s,
{
    Seq::new(
        s.len(),
        |i: int|
            if 0 <= i < s.len() {
                expr_view(s[i])
            } else {
                arbitrary()
            },
    )
}

/// The model of a statement.
pub open spec fn stmt_view(s: Stmt) -> StmtV
    decreases s,
{
    match s {
        Stmt::Print(e, nl) => StmtV::Print(expr_view(e), nl),
        Stmt::Return(t, e) => StmtV::Return(
            t,
            match e {
                Some(x) => Some(expr_view(x)),
                None => None,
            },
        ),
        Stmt::Break(t) => StmtV::Break(t),
        Stmt::Continue(t) => StmtV::Continue(t),
        Stmt::Let(n, t, e) => StmtV::Let(n, t, expr_view(e)),
        Stmt::While(c, b) => StmtV::While(expr_view(c), Box::new(stmt_view(*b))),
        Stmt::If(c, t, e) => StmtV::If(
            expr_view(c),
            Box::new(stmt_view(*t)),
            match e {
                Some(x) => Some(Box::new(stmt_view(*x))),
                None => None,
            },
        ),
        Stmt::Block(v) => StmtV::Block(stmts_view(v@)),
        Stmt::Func(n, ps, r, b) => StmtV::Func(n, ps@, r, Box::new(stmt_view(*b))),
        Stmt::Expression(e) => StmtV::Expression(expr_view(e)),
    }
}

/// The models of a sequence of statements.
pub open spec fn stmts_view(s: Seq<Stmt>) -> Seq<StmtV>
    decreases s,
{
    Seq::new(
        s.len(),
        |i: int|
            if 0 <= i < s.len() {
                stmt_view(s[i])
            } else {
                arbitrary()
            },
    )
}

impl View for Expr {
    type V = ExprV;

    open spec fn view(&self) -> ExprV {
        expr_view(*self)
    }
}

impl View for Stmt {
    type V = StmtV;

    open spec fn view(&self) -> StmtV {
        stmt_view(*self)
    }
}

/// The token that an expression is reported at: its operator, its literal or name,
/// or for a call, a grouping or an assignment, that of its first part.
pub open spec fn expr_token(e: ExprV) -> Token
    decreases e,
{
    match e {
        ExprV::Binary(_, t, _) => t,
        ExprV::Unary(t, _) => t,
        ExprV::FuncCall(name, _) => expr_token(*name),
        ExprV::Literal(t) => t,
        ExprV::Variable(t) => t,
        ExprV::Grouping(inner) => expr_token(*inner),
        ExprV::Assignment(target, _) => expr_token(*target),
        ExprV::Logical(_, t, _) => t,
    }
}

/// Whether a statement has a token to be reported at: every statement but a block
/// that is empty or whose first statement has none.
pub open spec fn stmt_has_token(s: StmtV) -> bool
    decreases s,
{
    match s {
        StmtV::Block(stmts) => stmts.len() > 0 && stmt_has_token(stmts[0]),
        _ => true,
    }
}

/// The token that a statement is reported at.
pub open spec fn stmt_token(s: StmtV) -> Token
    decreases s,
{
    match s {
        StmtV::Print(e, _) => expr_token(e),
        StmtV::Return(t, _) => t,
        StmtV::Let(t, _, _) => t,
        StmtV::While(e, _) => expr_token(e),
        StmtV::If(e, _, _) => expr_token(e),
        StmtV::Block(stmts) => if stmts.len() > 0 {
            stmt_token(stmts[0])
        } else {
            arbitrary()
        },
        StmtV::Func(t, _, _, _) => t,
        StmtV::Expression(e) => expr_token(e),
        StmtV::Break(t) => t,
        StmtV::Continue(t) => t,
    }
}

/// The models of a sequence of expressions, one by one.
pub proof fn lemma_exprs_view(s: Seq<Expr>)
    ensures
        exprs_view(s).len() == s.len(),
        forall|i: int| 0 <= i < s.len() ==> #[trigger] exprs_view(s)[i] == expr_view(s[i]),
{
}

/// The models of a sequence of statements, one by one.
pub proof fn lemma_stmts_view(s: Seq<Stmt>)
    ensures
        stmts_view(s).len() == s.len(),
        forall|i: int| 0 <= i < s.len() ==> #[trigger] stmts_view(s)[i] == stmt_view(s[i]),
{
}

/// The model of an expression, one level down: the same constructor over the models of
/// its parts.
pub proof fn lemma_expr_view(e: Expr)
    ensures
        match e {
            Expr::Binary(l, t, r) => expr_view(e) == ExprV::Binary(Box::new(expr_view(*l)), t, Box::new(expr_view(*r))),
            Expr::Unary(t, x) => expr_view(e) == ExprV::Unary(t, Box::new(expr_view(*x))),
            Expr::FuncCall(n, args) => expr_view(e) == ExprV::FuncCall(Box::new(expr_view(*n)), exprs_view(args@)),
            Expr::Literal(t) => expr_view(e) == ExprV::Literal(t),
            Expr::Variable(t) => expr_view(e) == ExprV::Variable(t),
            Expr::Grouping(x) => expr_view(e) == ExprV::Grouping(Box::new(expr_view(*x))),
            Expr::Assignment(l, r) => expr_view(e) == ExprV::Assignment(Box::new(expr_view(*l)), Box::new(expr_view(*r))),
            Expr::Logical(l, t, r) => expr_view(e) == ExprV::Logical(Box::new(expr_view(*l)), t, Box::new(expr_view(*r))),
        },
{
}

/// The model of a statement, one level down.
pub proof fn lemma_stmt_view(s: Stmt)
    ensures
        match s {
            Stmt::Print(e, nl) => stmt_view(s) == StmtV::Print(expr_view(e), nl),
            Stmt::Return(t, e) => stmt_view(s) == StmtV::Return(
                t,
                match e {
                    Some(x) => Some(expr_view(x)),
                    None => None,
                },
            ),
            Stmt::Break(t) => stmt_view(s) == StmtV::Break(t),
            Stmt::Continue(t) => stmt_view(s) == StmtV::Continue(t),
            Stmt::Let(n, t, e) => stmt_view(s) == StmtV::Let(n, t, expr_view(e)),
            Stmt::While(c, b) => stmt_view(s) == StmtV::While(expr_view(c), Box::new(stmt_view(*b))),
            Stmt::If(c, t, e) => stmt_view(s) == StmtV::If(
                expr_view(c),
                Box::new(stmt_view(*t)),
                match e {
                    Some(x) => Some(Box::new(stmt_view(*x))),
                    None => None,
                },
            ),
            Stmt::Block(v) => stmt_view(s) == StmtV::Block(stmts_view(v@)),
            Stmt::Func(n, ps, r, b) => stmt_view(s) == StmtV::Func(n, ps@, r, Box::new(stmt_view(*b))),
            Stmt::Expression(e) => stmt_view(s) == StmtV::Expression(expr_view(e)),
        },
{
    match s {
        Stmt::Print(e, nl) => {
            assert(stmt_view(s) == StmtV::Print(expr_view(e), nl));
        },
        _ => {},
    }
}

impl Expr {
    /// A copy of this expression.
    pub fn duplicate(&self) -> (r: Expr)
        ensures
            r@ == self@,
        decreases self,
    {
        proof {
            lemma_expr_view(*self);
        }
        let r = match self {
            Expr::Binary(l, t, x) => Expr::Binary(
                Box::new(l.duplicate()),
                t.duplicate(),
                Box::new(x.duplicate()),
            ),
            Expr::Unary(t, x) => Expr::Unary(t.duplicate(), Box::new(x.duplicate())),
            Expr::FuncCall(n, args) => Expr::FuncCall(Box::new(n.duplicate()), copy_exprs(args)),
            Expr::Literal(t) => Expr::Literal(t.duplicate()),
            Expr::Variable(t) => Expr::Variable(t.duplicate()),
            Expr::Grouping(x) => Expr::Grouping(Box::new(x.duplicate())),
            Expr::Assignment(l, x) => Expr::Assignment(Box::new(l.duplicate()), Box::new(x.duplicate())),
            Expr::Logical(l, t, x) => Expr::Logical(
                Box::new(l.duplicate()),
                t.duplicate(),
                Box::new(x.duplicate()),
            ),
        };
        proof {
            lemma_expr_view(r);
        }
        r
    }

    /// The token that this expression is reported at.
    pub fn token(&self) -> (r: &Token)
        ensures
            *r == expr_token(self@),
        decreases self,
    {
        match self {
            Expr::Binary(_, t, _) => t,
            Expr::Unary(t, _) => t,
            Expr::FuncCall(name, _) => name.token(),
            Expr::Literal(t) => t,
            Expr::Variable(t) => t,
            Expr::Grouping(inner) => inner.token(),
            Expr::Assignment(target, _) => target.token(),
            Expr::Logical(_, t, _) => t,
        }
    }
}

/// Copies of the expressions of `v`.
fn copy_exprs(v: &Vec<Expr>) -> (r: Vec<Expr>)
    ensures
        exprs_view(r@) == exprs_view(v@),
    decreases v,
{
    let mut r: Vec<Expr> = Vec::new();
    let mut i: usize = 0;
    proof {
        lemma_exprs_view(v@);
    }
    while i < v.len()
        invariant
            i <= v.len(),
            r@.len() == i,
            forall|j: int| 0 <= j < i ==> #[trigger] expr_view(r@[j]) == expr_view(v@[j]),
        decreases v.len() - i,
    {
        assert(decreases_to!(v => v@[i as int]));
        r.push(v[i].duplicate());
        i = i + 1;
    }
    proof {
        lemma_exprs_view(r@);
        lemma_exprs_view(v@);
    }
    assert(exprs_view(r@) =~= exprs_view(v@));
    r
}

/// Copies of the statements of `v`.
fn copy_stmts(v: &Vec<Stmt>) -> (r: Vec<Stmt>)
    ensures
        stmts_view(r@) == stmts_view(v@),
    decreases v,
{
    let mut r: Vec<Stmt> = Vec::new();
    let mut i: usize = 0;
    while i < v.len()
        invariant
            i <= v.len(),
            r@.len() == i,
            forall|j: int| 0 <= j < i ==> #[trigger] stmt_view(r@[j]) == stmt_view(v@[j]),
        decreases v.len() - i,
    {
        assert(decreases_to!(v => v@[i as int]));
        r.push(v[i].duplicate());
        i = i + 1;
    }
    proof {
        lemma_stmts_view(r@);
        lemma_stmts_view(v@);
    }
    assert(stmts_view(r@) =~= stmts_view(v@));
    r
}

/// Copies of the pairs of tokens of `v`.
pub fn copy_params(v: &Vec<(Token, Token)>) -> (r: Vec<(Token, Token)>)
    ensures
        r@ == v@,
{
    let mut r: Vec<(Token, Token)> = Vec::new();
    let mut i: usize = 0;
    while i < v.len()
        invariant
            i <= v.len(),
            r@ == v@.subrange(0, i as int),
        decreases v.len() - i,
    {
        r.push((v[i].0.duplicate(), v[i].1.duplicate()));
        i = i + 1;
        assert(r@ =~= v@.subrange(0, i as int));
    }
    assert(v@.subrange(0, v@.len() as int) =~= v@);
    r
}

impl Stmt {
    /// A copy of this statement.
    pub fn duplicate(&self) -> (r: Stmt)
        ensures
            r@ == self@,
        decreases self,
    {
        proof {
            lemma_stmt_view(*self);
        }
        let r = match self {
            Stmt::Print(e, nl) => Stmt::Print(e.duplicate(), *nl),
            Stmt::Return(t, e) => Stmt::Return(
                t.duplicate(),
                match e {
                    Some(x) => Some(x.duplicate()),
                    None => None,
                },
            ),
            Stmt::Break(t) => Stmt::Break(t.duplicate()),
            Stmt::Continue(t) => Stmt::Continue(t.duplicate()),
            Stmt::Let(n, t, e) => Stmt::Let(n.duplicate(), t.duplicate(), e.duplicate()),
            Stmt::While(c, b) => Stmt::While(c.duplicate(), Box::new(b.duplicate())),
            Stmt::If(c, t, e) => Stmt::If(
                c.duplicate(),
                Box::new(t.duplicate()),
                match e {
                    Some(x) => Some(Box::new(x.duplicate())),
                    None => None,
                },
            ),
            Stmt::Block(v) => Stmt::Block(copy_stmts(v)),
            Stmt::Func(n, ps, rt, b) => Stmt::Func(
                n.duplicate(),
                copy_params(ps),
                rt.duplicate(),
                Box::new(b.duplicate()),
            ),
            Stmt::Expression(e) => Stmt::Expression(e.duplicate()),
        };
        proof {
            lemma_stmt_view(r);
        }
        r
    }

    /// Whether this statement has a token to be reported at.
    pub fn has_token(&self) -> (r: bool)
        ensures
            r == stmt_has_token(self@),
        decreases self,
    {
        match self {
            Stmt::Block(stmts) => {
                proof {
                    lemma_stmts_view(stmts@);
                }
                if stmts.len() == 0 {
                    false
                } else {
                    assert(decreases_to!(stmts => stmts@[0]));
                    stmts[0].has_token()
                }
            },
            _ => true,
        }
    }

    /// The token that this statement is reported at.
    pub fn token(&self) -> (r: &Token)
        requires
            stmt_has_token(self@),
        ensures
            *r == stmt_token(self@),
        decreases self,
    {
        match self {
            Stmt::Print(e, _) => e.token(),
            Stmt::Return(t, _) => t,
            Stmt::Let(t, _, _) => t,
            Stmt::While(e, _) => e.token(),
            Stmt::If(e, _, _) => e.token(),
            Stmt::Block(stmts) => {
                proof {
                    lemma_stmts_view(stmts@);
                }
                stmts[0].token()
            },
            Stmt::Func(t, _, _, _) => t,
            Stmt::Expression(e) => e.token(),
            Stmt::Break(t) => t,
            Stmt::Continue(t) => t,
        }
    }
}

} // verus!
