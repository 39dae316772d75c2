//! Tokens produced by the lexer and consumed by the parser.
use vstd::prelude::*;

verus! {

/// The kind of a token, with the source text for the kinds that carry one.
#[derive(Clone, Debug, PartialEq)]
pub enum TokenKind {
    OpenParen,
    CloseParen,
    OpenCurly,
    CloseCurly,
    Comma,
    Semicolon,
    Colon,
    Equal,
    Plus,
    Minus,
    Mul,
    Div,
    Modulo,
    PlusEq,
    MinusEq,
    MulEq,
    DivEq,
    ModuloEq,
    Equals,
    Less,
    LessEq,
    Greater,
    GreaterEq,
    And,
    Or,
    Not,
    NotEq,
    Symbol(String),
    Str(String),
    Char(String),
    Number(String),
    Func,
    Let,
    False,
    True,
    If,
    Else,
    While,
    Return,
    Break,
    Continue,
    Print,
    Println,
    PrimitiveType(String),
    EOF,
    Unknown(String),
}

/// The mathematical model of a [`TokenKind`]: the same kinds, with text as a sequence of characters.
pub enum KindView {
    OpenParen,
    CloseParen,
    OpenCurly,
    CloseCurly,
    Comma,
    Semicolon,
    Colon,
    Equal,
    Plus,
    Minus,
    Mul,
    Div,
    Modulo,
    PlusEq,
    MinusEq,
    MulEq,
    DivEq,
    ModuloEq,
    Equals,
    Less,
    LessEq,
    Greater,
    GreaterEq,
    And,
    Or,
    Not,
    NotEq,
    Symbol(Seq<char>),
    Str(Seq<char>),
    Char(Seq<char>),
    Number(Seq<char>),
    Func,
    Let,
    False,
    True,
    If,
    Else,
    While,
    Return,
    Break,
    Continue,
    Print,
    Println,
    PrimitiveType(Seq<char>),
    EOF,
    Unknown(Seq<char>),
}

impl View for TokenKind {
    type V = KindView;

    open spec fn view(&self) -> KindView {
        match self {
            TokenKind::OpenParen => KindView::OpenParen,
            TokenKind::CloseParen => KindView::CloseParen,
            TokenKind::OpenCurly => KindView::OpenCurly,
            TokenKind::CloseCurly => KindView::CloseCurly,
            TokenKind::Comma => KindView::Comma,
            TokenKind::Semicolon => KindView::Semicolon,
            TokenKind::Colon => KindView::Colon,
            TokenKind::Equal => KindView::Equal,
            TokenKind::Plus => KindView::Plus,
            TokenKind::Minus => KindView::Minus,
            TokenKind::Mul => KindView::Mul,
            TokenKind::Div => KindView::Div,
            TokenKind::Modulo => KindView::Modulo,
            TokenKind::PlusEq => KindView::PlusEq,
            TokenKind::MinusEq => KindView::MinusEq,
            TokenKind::MulEq => KindView::MulEq,
            TokenKind::DivEq => KindView::DivEq,
            TokenKind::ModuloEq => KindView::ModuloEq,
            TokenKind::Equals => KindView::Equals,
            TokenKind::Less => KindView::Less,
            TokenKind::LessEq => KindView::LessEq,
            TokenKind::Greater => KindView::Greater,
            TokenKind::GreaterEq => KindView::GreaterEq,
            TokenKind::And => KindView::And,
            TokenKind::Or => KindView::Or,
            TokenKind::Not => KindView::Not,
            TokenKind::NotEq => KindView::NotEq,
            TokenKind::Symbol(s) => KindView::Symbol(s@),
            TokenKind::Str(s) => KindView::Str(s@),
            TokenKind::Char(s) => KindView::Char(s@),
            TokenKind::Number(s) => KindView::Number(s@),
            TokenKind::Func => KindView::Func,
            TokenKind::Let => KindView::Let,
            TokenKind::False => KindView::False,
            TokenKind::True => KindView::True,
            TokenKind::If => KindView::If,
            TokenKind::Else => KindView::Else,
            TokenKind::While => KindView::While,
            TokenKind::Return => KindView::Return,
            TokenKind::Break => KindView::Break,
            TokenKind::Continue => KindView::Continue,
            TokenKind::Print => KindView::Print,
            TokenKind::Println => KindView::Println,
            TokenKind::PrimitiveType(s) => KindView::PrimitiveType(s@),
            TokenKind::EOF => KindView::EOF,
            TokenKind::Unknown(s) => KindView::Unknown(s@),
        }
    }
}

/// A token: its kind, the file it was read from, and its (line, column) position.
#[derive(Debug, PartialEq)]
pub struct Token {
    pub origin_file: String,
    pub kind: TokenKind,
    pub pos: (usize, usize),
}

/// The mathematical model of a [`Token`].
pub struct TokenView {
    pub origin_file: Seq<char>,
    pub kind: KindView,
    pub pos: (usize, usize),
}

impl View for Token {
    type V = TokenView;

    open spec fn view(&self) -> TokenView {
        TokenView { origin_file: self.origin_file@, kind: self.kind@, pos: self.pos }
    }
}

/// The text a token of this kind stands for in messages: its source text, or
/// `end of file` for the end-of-file token.
pub open spec fn kind_text(k: KindView) -> Seq<char> {
    match k {
        KindView::Symbol(s) => s,
        KindView::Str(s) => s,
        KindView::Char(s) => s,
        KindView::Number(s) => s,
        KindView::PrimitiveType(s) => s,
        KindView::Unknown(s) => s,
        KindView::OpenParen => "("@,
        KindView::CloseParen => ")"@,
        KindView::OpenCurly => "{"@,
        KindView::CloseCurly => "}"@,
        KindView::Comma => ","@,
        KindView::Semicolon => ";"@,
        KindView::Colon => ":"@,
        KindView::Equal => "="@,
        KindView::Plus => "+"@,
        KindView::Minus => "-"@,
        KindView::Mul => "*"@,
        KindView::Div => "/"@,
        KindView::Modulo => "%"@,
        KindView::PlusEq => "+="@,
        KindView::MinusEq => "-="@,
        KindView::MulEq => "*="@,
        KindView::DivEq => "/="@,
        KindView::ModuloEq => "%="@,
        KindView::Equals => "=="@,
        KindView::Less => "<"@,
        KindView::LessEq => "<="@,
        KindView::Greater => ">"@,
        KindView::GreaterEq => ">="@,
        KindView::And => "&&"@,
        KindView::Or => "||"@,
        KindView::Not => "!"@,
        KindView::NotEq => "!="@,
        KindView::Func => "fn"@,
        KindView::Let => "let"@,
        KindView::False => "false"@,
        KindView::True => "true"@,
        KindView::If => "if"@,
        KindView::Else => "else"@,
        KindView::While => "while"@,
        KindView::Return => "return"@,
        KindView::Break => "break"@,
        KindView::Continue => "continue"@,
        KindView::Print => "print"@,
        KindView::Println => "println"@,
        KindView::EOF => "end of file"@,
    }
}

impl TokenKind {
    /// An exact copy of this kind.
    pub fn duplicate(&self) -> (r: TokenKind)
        ensures
            r == *self,
    {
        match self {
            TokenKind::Symbol(s) => TokenKind::Symbol(s.clone()),
            TokenKind::Str(s) => TokenKind::Str(s.clone()),
            TokenKind::Char(s) => TokenKind::Char(s.clone()),
            TokenKind::Number(s) => TokenKind::Number(s.clone()),
            TokenKind::PrimitiveType(s) => TokenKind::PrimitiveType(s.clone()),
            TokenKind::Unknown(s) => TokenKind::Unknown(s.clone()),
            TokenKind::OpenParen => TokenKind::OpenParen,
            TokenKind::CloseParen => TokenKind::CloseParen,
            TokenKind::OpenCurly => TokenKind::OpenCurly,
            TokenKind::CloseCurly => TokenKind::CloseCurly,
            TokenKind::Comma => TokenKind::Comma,
            TokenKind::Semicolon => TokenKind::Semicolon,
            TokenKind::Colon => TokenKind::Colon,
            TokenKind::Equal => TokenKind::Equal,
            TokenKind::Plus => TokenKind::Plus,
            TokenKind::Minus => TokenKind::Minus,
            TokenKind::Mul => TokenKind::Mul,
            TokenKind::Div => TokenKind::Div,
            TokenKind::Modulo => TokenKind::Modulo,
            TokenKind::PlusEq => TokenKind::PlusEq,
            TokenKind::MinusEq => TokenKind::MinusEq,
            TokenKind::MulEq => TokenKind::MulEq,
            TokenKind::DivEq => TokenKind::DivEq,
            TokenKind::ModuloEq => TokenKind::ModuloEq,
            TokenKind::Equals => TokenKind::Equals,
            TokenKind::Less => TokenKind::Less,
            TokenKind::LessEq => TokenKind::LessEq,
            TokenKind::Greater => TokenKind::Greater,
            TokenKind::GreaterEq => TokenKind::GreaterEq,
            TokenKind::And => TokenKind::And,
            TokenKind::Or => TokenKind::Or,
            TokenKind::Not => TokenKind::Not,
            TokenKind::NotEq => TokenKind::NotEq,
            TokenKind::Func => TokenKind::Func,
            TokenKind::Let => TokenKind::Let,
            TokenKind::False => TokenKind::False,
            TokenKind::True => TokenKind::True,
            TokenKind::If => TokenKind::If,
            TokenKind::Else => TokenKind::Else,
            TokenKind::While => TokenKind::While,
            TokenKind::Return => TokenKind::Return,
            TokenKind::Break => TokenKind::Break,
            TokenKind::Continue => TokenKind::Continue,
            TokenKind::Print => TokenKind::Print,
            TokenKind::Println => TokenKind::Println,
            TokenKind::EOF => TokenKind::EOF,
        }
    }

    /// The text a token of this kind stands for in messages.
    pub fn text(&self) -> (r: String)
        ensures
            r@ == kind_text(self@),
    {
        match self {
            TokenKind::Symbol(s) => s.clone(),
            TokenKind::Str(s) => s.clone(),
            TokenKind::Char(s) => s.clone(),
            TokenKind::Number(s) => s.clone(),
            TokenKind::PrimitiveType(s) => s.clone(),
            TokenKind::Unknown(s) => s.clone(),
            TokenKind::OpenParen => String::from_str("("),
            TokenKind::CloseParen => String::from_str(")"),
            TokenKind::OpenCurly => String::from_str("{"),
            TokenKind::CloseCurly => String::from_str("}"),
            TokenKind::Comma => String::from_str(","),
            TokenKind::Semicolon => String::from_str(";"),
            TokenKind::Colon => String::from_str(":"),
            TokenKind::Equal => String::from_str("="),
            TokenKind::Plus => String::from_str("+"),
            TokenKind::Minus => String::from_str("-"),
            TokenKind::Mul => String::from_str("*"),
            TokenKind::Div => String::from_str("/"),
            TokenKind::Modulo => String::from_str("%"),
            TokenKind::PlusEq => String::from_str("+="),
            TokenKind::MinusEq => String::from_str("-="),
            TokenKind::MulEq => String::from_str("*="),
            TokenKind::DivEq => String::from_str("/="),
            TokenKind::ModuloEq => String::from_str("%="),
            TokenKind::Equals => String::from_str("=="),
            TokenKind::Less => String::from_str("<"),
            TokenKind::LessEq => String::from_str("<="),
            TokenKind::Greater => String::from_str(">"),
            TokenKind::GreaterEq => String::from_str(">="),
            TokenKind::And => String::from_str("&&"),
            TokenKind::Or => String::from_str("||"),
            TokenKind::Not => String::from_str("!"),
            TokenKind::NotEq => String::from_str("!="),
            TokenKind::Func => String::from_str("fn"),
            TokenKind::Let => String::from_str("let"),
            TokenKind::False => String::from_str("false"),
            TokenKind::True => String::from_str("true"),
            TokenKind::If => String::from_str("if"),
            TokenKind::Else => String::from_str("else"),
            TokenKind::While => String::from_str("while"),
            TokenKind::Return => String::from_str("return"),
            TokenKind::Break => String::from_str("break"),
            TokenKind::Continue => String::from_str("continue"),
            TokenKind::Print => String::from_str("print"),
            TokenKind::Println => String::from_str("println"),
            TokenKind::EOF => String::from_str("end of file"),
        }
    }

    /// A number that tells the kinds apart, ignoring their text.
    pub fn tag(&self) -> (r: u8)
        ensures
            r == kind_tag(self@),
    {
        match self {
            TokenKind::OpenParen => 0,
            TokenKind::CloseParen => 1,
            TokenKind::OpenCurly => 2,
            TokenKind::CloseCurly => 3,
            TokenKind::Comma => 4,
            TokenKind::Semicolon => 5,
            TokenKind::Colon => 6,
            TokenKind::Equal => 7,
            TokenKind::Plus => 8,
            TokenKind::Minus => 9,
            TokenKind::Mul => 10,
            TokenKind::Div => 11,
            TokenKind::Modulo => 12,
            TokenKind::PlusEq => 13,
            TokenKind::MinusEq => 14,
            TokenKind::MulEq => 15,
            TokenKind::DivEq => 16,
            TokenKind::ModuloEq => 17,
            TokenKind::Equals => 18,
            TokenKind::Less => 19,
            TokenKind::LessEq => 20,
            TokenKind::Greater => 21,
            TokenKind::GreaterEq => 22,
            TokenKind::And => 23,
            TokenKind::Or => 24,
            TokenKind::Not => 25,
            TokenKind::NotEq => 26,
            TokenKind::Symbol(_) => 27,
            TokenKind::Str(_) => 28,
            TokenKind::Char(_) => 29,
            TokenKind::Number(_) => 30,
            TokenKind::Func => 31,
            TokenKind::Let => 32,
            TokenKind::False => 33,
            TokenKind::True => 34,
            TokenKind::If => 35,
            TokenKind::Else => 36,
            TokenKind::While => 37,
            TokenKind::Return => 38,
            TokenKind::Break => 44,
            TokenKind::Continue => 45,
            TokenKind::Print => 39,
            TokenKind::Println => 40,
            TokenKind::PrimitiveType(_) => 41,
            TokenKind::EOF => 42,
            TokenKind::Unknown(_) => 43,
        }
    }
}

/// The number that [`TokenKind::tag`] gives each kind.
pub open spec fn kind_tag(k: KindView) -> u8 {
    match k {
        KindView::OpenParen => 0,
        KindView::CloseParen => 1,
        KindView::OpenCurly => 2,
        KindView::CloseCurly => 3,
        KindView::Comma => 4,
        KindView::Semicolon => 5,
        KindView::Colon => 6,
        KindView::Equal => 7,
        KindView::Plus => 8,
        KindView::Minus => 9,
        KindView::Mul => 10,
        KindView::Div => 11,
        KindView::Modulo => 12,
        KindView::PlusEq => 13,
        KindView::MinusEq => 14,
        KindView::MulEq => 15,
        KindView::DivEq => 16,
        KindView::ModuloEq => 17,
        KindView::Equals => 18,
        KindView::Less => 19,
        KindView::LessEq => 20,
        KindView::Greater => 21,
        KindView::GreaterEq => 22,
        KindView::And => 23,
        KindView::Or => 24,
        KindView::Not => 25,
        KindView::NotEq => 26,
        KindView::Symbol(_) => 27,
        KindView::Str(_) => 28,
        KindView::Char(_) => 29,
        KindView::Number(_) => 30,
        KindView::Func => 31,
        KindView::Let => 32,
        KindView::False => 33,
        KindView::True => 34,
        KindView::If => 35,
        KindView::Else => 36,
        KindView::While => 37,
        KindView::Return => 38,
        KindView::Break => 44,
        KindView::Continue => 45,
        KindView::Print => 39,
        KindView::Println => 40,
        KindView::PrimitiveType(_) => 41,
        KindView::EOF => 42,
        KindView::Unknown(_) => 43,
    }
}

impl Token {
    /// An exact copy of this token.
    pub fn duplicate(&self) -> (r: Token)
        ensures
            r == *self,
    {
        Token { origin_file: self.origin_file.clone(), kind: self.kind.duplicate(), pos: self.pos }
    }
}

impl Clone for Token {
    fn clone(&self) -> (r: Token)
        ensures
            r == *self,
    {
        self.duplicate()
    }
}

} // verus!
