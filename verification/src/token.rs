//! Tokens of the source language: the tagged values the lexer produces and
//! the parser consumes, with their mathematical views.

use vstd::prelude::*;

verus! {

/// A float literal kept as written: its decimal digits and a sign.
///
/// The library never computes with floating-point values. A literal travels
/// from the source text to the emitted image as text, and the image records
/// where its thirty-two bits belong.
#[derive(Debug, PartialEq)]
pub struct FloatLiteral {
    pub negative: bool,
    pub digits: String,
}

/// The view of a [`FloatLiteral`].
pub struct FloatView {
    pub negative: bool,
    pub digits: Seq<char>,
}

impl View for FloatLiteral {
    type V = FloatView;

    open spec fn view(&self) -> FloatView {
        FloatView { negative: self.negative, digits: self.digits@ }
    }
}

impl Clone for FloatLiteral {
    fn clone(&self) -> (r: Self)
        ensures
            r@ == self@,
    {
        FloatLiteral { negative: self.negative, digits: self.digits.clone() }
    }
}

/// The tag of a token: which variant it is, without any payload.
#[derive(Clone, Copy, Debug, PartialEq, Eq, Structural)]
pub enum TokenTag {
    ID,
    Integer,
    Float,
    Character,
    StringLiteral,
    Node,
    Export,
    Var,
    Const,
    Fn,
    While,
    True,
    False,
    If,
    Else,
    Assign,
    Add,
    Mul,
    Sub,
    Div,
    AddAssign,
    MulAssign,
    SubAssign,
    DivAssign,
    LeftParen,
    RightParen,
    LeftBracket,
    RightBracket,
    LeftBrace,
    RightBrace,
    Semicolon,
    Colon,
    DoubleColon,
    Arrow,
    Dot,
    Comma,
    Equals,
    Not,
    Less,
    Greater,
    Leq,
    Geq,
    Neq,
    LogicalAnd,
    LogicalOr,
    BitwiseAnd,
    BitwiseOr,
    Return,
    Struct,
    Int,
    FloatKW,
    Bool,
    Char,
}

/// A token of the source language.
#[derive(Debug, PartialEq)]
pub enum Token {
    ID(String),
    Integer(i32),
    Float(FloatLiteral),
    Character(char),
    StringLiteral(String),
    Node,
    Export,
    Var,
    Const,
    Fn,
    While,
    True,
    False,
    If,
    Else,
    Assign,
    Add,
    Mul,
    Sub,
    Div,
    AddAssign,
    MulAssign,
    SubAssign,
    DivAssign,
    LeftParen,
    RightParen,
    LeftBracket,
    RightBracket,
    LeftBrace,
    RightBrace,
    Semicolon,
    Colon,
    DoubleColon,
    Arrow,
    Dot,
    Comma,
    Equals,
    Not,
    Less,
    Greater,
    Leq,
    Geq,
    Neq,
    LogicalAnd,
    LogicalOr,
    BitwiseAnd,
    BitwiseOr,
    Return,
    Struct,
    Int,
    FloatKW,
    Bool,
    Char,
}

/// The view of a [`Token`]: the payload-carrying variants with their payload
/// as a mathematical value, every other token by its tag alone.
pub enum TokenView {
    ID(Seq<char>),
    Integer(i32),
    Float(FloatView),
    Character(char),
    StringLiteral(Seq<char>),
    Plain(TokenTag),
}

impl TokenView {
    /// The tag of the token this view stands for.
    pub open spec fn tag(self) -> TokenTag {
        match self {
            TokenView::ID(_) => TokenTag::ID,
            TokenView::Integer(_) => TokenTag::Integer,
            TokenView::Float(_) => TokenTag::Float,
            TokenView::Character(_) => TokenTag::Character,
            TokenView::StringLiteral(_) => TokenTag::StringLiteral,
            TokenView::Plain(t) => t,
        }
    }

    /// A view is well formed when a `Plain` view does not carry the tag of a
    /// payload-carrying variant.
    pub open spec fn wf(self) -> bool {
        match self {
            TokenView::Plain(t) => !carries_payload(t),
            _ => true,
        }
    }
}

/// Whether tokens with this tag carry a payload.
pub open spec fn carries_payload(t: TokenTag) -> bool {
    t == TokenTag::ID || t == TokenTag::Integer || t == TokenTag::Float || t == TokenTag::Character
        || t == TokenTag::StringLiteral
}

/// The token of a tag with an empty payload.
pub open spec fn blank_token(t: TokenTag) -> TokenView {
    match t {
        TokenTag::ID => TokenView::ID(Seq::empty()),
        TokenTag::Integer => TokenView::Integer(0),
        TokenTag::Float => TokenView::Float(FloatView { negative: false, digits: Seq::empty() }),
        TokenTag::Character => TokenView::Character(' '),
        TokenTag::StringLiteral => TokenView::StringLiteral(Seq::empty()),
        _ => TokenView::Plain(t),
    }
}

impl View for Token {
    type V = TokenView;

    open spec fn view(&self) -> TokenView {
        match self {
            Token::ID(s) => TokenView::ID(s@),
            Token::Integer(i) => TokenView::Integer(*i),
            Token::Float(f) => TokenView::Float(f@),
            Token::Character(c) => TokenView::Character(*c),
            Token::StringLiteral(s) => TokenView::StringLiteral(s@),
            Token::Node => TokenView::Plain(TokenTag::Node),
            Token::Export => TokenView::Plain(TokenTag::Export),
            Token::Var => TokenView::Plain(TokenTag::Var),
            Token::Const => TokenView::Plain(TokenTag::Const),
            Token::Fn => TokenView::Plain(TokenTag::Fn),
            Token::While => TokenView::Plain(TokenTag::While),
            Token::True => TokenView::Plain(TokenTag::True),
            Token::False => TokenView::Plain(TokenTag::False),
            Token::If => TokenView::Plain(TokenTag::If),
            Token::Else => TokenView::Plain(TokenTag::Else),
            Token::Assign => TokenView::Plain(TokenTag::Assign),
            Token::Add => TokenView::Plain(TokenTag::Add),
            Token::Mul => TokenView::Plain(TokenTag::Mul),
            Token::Sub => TokenView::Plain(TokenTag::Sub),
            Token::Div => TokenView::Plain(TokenTag::Div),
            Token::AddAssign => TokenView::Plain(TokenTag::AddAssign),
            Token::MulAssign => TokenView::Plain(TokenTag::MulAssign),
            Token::SubAssign => TokenView::Plain(TokenTag::SubAssign),
            Token::DivAssign => TokenView::Plain(TokenTag::DivAssign),
            Token::LeftParen => TokenView::Plain(TokenTag::LeftParen),
            Token::RightParen => TokenView::Plain(TokenTag::RightParen),
            Token::LeftBracket => TokenView::Plain(TokenTag::LeftBracket),
            Token::RightBracket => TokenView::Plain(TokenTag::RightBracket),
            Token::LeftBrace => TokenView::Plain(TokenTag::LeftBrace),
            Token::RightBrace => TokenView::Plain(TokenTag::RightBrace),
            Token::Semicolon => TokenView::Plain(TokenTag::Semicolon),
            Token::Colon => TokenView::Plain(TokenTag::Colon),
            Token::DoubleColon => TokenView::Plain(TokenTag::DoubleColon),
            Token::Arrow => TokenView::Plain(TokenTag::Arrow),
            Token::Dot => TokenView::Plain(TokenTag::Dot),
            Token::Comma => TokenView::Plain(TokenTag::Comma),
            Token::Equals => TokenView::Plain(TokenTag::Equals),
            Token::Not => TokenView::Plain(TokenTag::Not),
            Token::Less => TokenView::Plain(TokenTag::Less),
            Token::Greater => TokenView::Plain(TokenTag::Greater),
            Token::Leq => TokenView::Plain(TokenTag::Leq),
            Token::Geq => TokenView::Plain(TokenTag::Geq),
            Token::Neq => TokenView::Plain(TokenTag::Neq),
            Token::LogicalAnd => TokenView::Plain(TokenTag::LogicalAnd),
            Token::LogicalOr => TokenView::Plain(TokenTag::LogicalOr),
            Token::BitwiseAnd => TokenView::Plain(TokenTag::BitwiseAnd),
            Token::BitwiseOr => TokenView::Plain(TokenTag::BitwiseOr),
            Token::Return => TokenView::Plain(TokenTag::Return),
            Token::Struct => TokenView::Plain(TokenTag::Struct),
            Token::Int => TokenView::Plain(TokenTag::Int),
            Token::FloatKW => TokenView::Plain(TokenTag::FloatKW),
            Token::Bool => TokenView::Plain(TokenTag::Bool),
            Token::Char => TokenView::Plain(TokenTag::Char),
        }
    }
}

impl Token {
    /// The tag of this token. Two tokens match as grammar terminals when
    /// their tags are equal, whatever their payloads.
    pub fn tag(&self) -> (t: TokenTag)
        ensures
            t == self@.tag(),
            self@.wf(),
    {
        match self {
            Token::ID(_) => TokenTag::ID,
            Token::Integer(_) => TokenTag::Integer,
            Token::Float(_) => TokenTag::Float,
            Token::Character(_) => TokenTag::Character,
            Token::StringLiteral(_) => TokenTag::StringLiteral,
            Token::Node => TokenTag::Node,
            Token::Export => TokenTag::Export,
            Token::Var => TokenTag::Var,
            Token::Const => TokenTag::Const,
            Token::Fn => TokenTag::Fn,
            Token::While => TokenTag::While,
            Token::True => TokenTag::True,
            Token::False => TokenTag::False,
            Token::If => TokenTag::If,
            Token::Else => TokenTag::Else,
            Token::Assign => TokenTag::Assign,
            Token::Add => TokenTag::Add,
            Token::Mul => TokenTag::Mul,
            Token::Sub => TokenTag::Sub,
            Token::Div => TokenTag::Div,
            Token::AddAssign => TokenTag::AddAssign,
            Token::MulAssign => TokenTag::MulAssign,
            Token::SubAssign => TokenTag::SubAssign,
            Token::DivAssign => TokenTag::DivAssign,
            Token::LeftParen => TokenTag::LeftParen,
            Token::RightParen => TokenTag::RightParen,
            Token::LeftBracket => TokenTag::LeftBracket,
            Token::RightBracket => TokenTag::RightBracket,
            Token::LeftBrace => TokenTag::LeftBrace,
            Token::RightBrace => TokenTag::RightBrace,
            Token::Semicolon => TokenTag::Semicolon,
            Token::Colon => TokenTag::Colon,
            Token::DoubleColon => TokenTag::DoubleColon,
            Token::Arrow => TokenTag::Arrow,
            Token::Dot => TokenTag::Dot,
            Token::Comma => TokenTag::Comma,
            Token::Equals => TokenTag::Equals,
            Token::Not => TokenTag::Not,
            Token::Less => TokenTag::Less,
            Token::Greater => TokenTag::Greater,
            Token::Leq => TokenTag::Leq,
            Token::Geq => TokenTag::Geq,
            Token::Neq => TokenTag::Neq,
            Token::LogicalAnd => TokenTag::LogicalAnd,
            Token::LogicalOr => TokenTag::LogicalOr,
            Token::BitwiseAnd => TokenTag::BitwiseAnd,
            Token::BitwiseOr => TokenTag::BitwiseOr,
            Token::Return => TokenTag::Return,
            Token::Struct => TokenTag::Struct,
            Token::Int => TokenTag::Int,
            Token::FloatKW => TokenTag::FloatKW,
            Token::Bool => TokenTag::Bool,
            Token::Char => TokenTag::Char,
        }
    }

    /// The token of a tag with an empty payload: for a tag whose tokens
    /// carry none, the one token of that tag.
    pub fn of_tag(t: TokenTag) -> (r: Token)
        ensures
            r@ == blank_token(t),
    {
        match t {
            TokenTag::ID => Token::ID(String::new()),
            TokenTag::Integer => Token::Integer(0),
            TokenTag::Float => Token::Float(FloatLiteral { negative: false, digits: String::new() }),
            TokenTag::Character => Token::Character(' '),
            TokenTag::StringLiteral => Token::StringLiteral(String::new()),
            TokenTag::Node => Token::Node,
            TokenTag::Export => Token::Export,
            TokenTag::Var => Token::Var,
            TokenTag::Const => Token::Const,
            TokenTag::Fn => Token::Fn,
            TokenTag::While => Token::While,
            TokenTag::True => Token::True,
            TokenTag::False => Token::False,
            TokenTag::If => Token::If,
            TokenTag::Else => Token::Else,
            TokenTag::Assign => Token::Assign,
            TokenTag::Add => Token::Add,
            TokenTag::Mul => Token::Mul,
            TokenTag::Sub => Token::Sub,
            TokenTag::Div => Token::Div,
            TokenTag::AddAssign => Token::AddAssign,
            TokenTag::MulAssign => Token::MulAssign,
            TokenTag::SubAssign => Token::SubAssign,
            TokenTag::DivAssign => Token::DivAssign,
            TokenTag::LeftParen => Token::LeftParen,
            TokenTag::RightParen => Token::RightParen,
            TokenTag::LeftBracket => Token::LeftBracket,
            TokenTag::RightBracket => Token::RightBracket,
            TokenTag::LeftBrace => Token::LeftBrace,
            TokenTag::RightBrace => Token::RightBrace,
            TokenTag::Semicolon => Token::Semicolon,
            TokenTag::Colon => Token::Colon,
            TokenTag::DoubleColon => Token::DoubleColon,
            TokenTag::Arrow => Token::Arrow,
            TokenTag::Dot => Token::Dot,
            TokenTag::Comma => Token::Comma,
            TokenTag::Equals => Token::Equals,
            TokenTag::Not => Token::Not,
            TokenTag::Less => Token::Less,
            TokenTag::Greater => Token::Greater,
            TokenTag::Leq => Token::Leq,
            TokenTag::Geq => Token::Geq,
            TokenTag::Neq => Token::Neq,
            TokenTag::LogicalAnd => Token::LogicalAnd,
            TokenTag::LogicalOr => Token::LogicalOr,
            TokenTag::BitwiseAnd => Token::BitwiseAnd,
            TokenTag::BitwiseOr => Token::BitwiseOr,
            TokenTag::Return => Token::Return,
            TokenTag::Struct => Token::Struct,
            TokenTag::Int => Token::Int,
            TokenTag::FloatKW => Token::FloatKW,
            TokenTag::Bool => Token::Bool,
            TokenTag::Char => Token::Char,
        }
    }
}

impl Clone for Token {
    fn clone(&self) -> (r: Self)
        ensures
            r@ == self@,
    {
        match self {
            Token::ID(s) => Token::ID(s.clone()),
            Token::Integer(i) => Token::Integer(*i),
            Token::Float(f) => Token::Float(f.clone()),
            Token::Character(c) => Token::Character(*c),
            Token::StringLiteral(s) => Token::StringLiteral(s.clone()),
            other => Token::of_tag(other.tag()),
        }
    }
}

/// The keyword a word spells, if it spells one.
pub open spec fn keyword_of(word: Seq<char>) -> Option<TokenTag> {
    if word == "node"@ {
        Some(TokenTag::Node)
    } else if word == "export"@ {
        Some(TokenTag::Export)
    } else if word == "var"@ {
        Some(TokenTag::Var)
    } else if word == "const"@ {
        Some(TokenTag::Const)
    } else if word == "fn"@ {
        Some(TokenTag::Fn)
    } else if word == "while"@ {
        Some(TokenTag::While)
    } else if word == "true"@ {
        Some(TokenTag::True)
    } else if word == "false"@ {
        Some(TokenTag::False)
    } else if word == "if"@ {
        Some(TokenTag::If)
    } else if word == "else"@ {
        Some(TokenTag::Else)
    } else if word == "return"@ {
        Some(TokenTag::Return)
    } else if word == "struct"@ {
        Some(TokenTag::Struct)
    } else if word == "int"@ {
        Some(TokenTag::Int)
    } else if word == "float"@ {
        Some(TokenTag::FloatKW)
    } else if word == "bool"@ {
        Some(TokenTag::Bool)
    } else if word == "char"@ {
        Some(TokenTag::Char)
    } else {
        None
    }
}

/// Whether `word` is the text `lit`.
pub fn spells(word: &String, lit: &str) -> (r: bool)
    ensures
        r == (word@ == lit@),
{
    let other = String::from_str(lit);
    *word == other
}

/// Looks a word up among the keywords.
pub fn keyword(word: &String) -> (r: Option<TokenTag>)
    ensures
        r == keyword_of(word@),
{
    if spells(word, "node") {
        Some(TokenTag::Node)
    } else if spells(word, "export") {
        Some(TokenTag::Export)
    } else if spells(word, "var") {
        Some(TokenTag::Var)
    } else if spells(word, "const") {
        Some(TokenTag::Const)
    } else if spells(word, "fn") {
        Some(TokenTag::Fn)
    } else if spells(word, "while") {
        Some(TokenTag::While)
    } else if spells(word, "true") {
        Some(TokenTag::True)
    } else if spells(word, "false") {
        Some(TokenTag::False)
    } else if spells(word, "if") {
        Some(TokenTag::If)
    } else if spells(word, "else") {
        Some(TokenTag::Else)
    } else if spells(word, "return") {
        Some(TokenTag::Return)
    } else if spells(word, "struct") {
        Some(TokenTag::Struct)
    } else if spells(word, "int") {
        Some(TokenTag::Int)
    } else if spells(word, "float") {
        Some(TokenTag::FloatKW)
    } else if spells(word, "bool") {
        Some(TokenTag::Bool)
    } else if spells(word, "char") {
        Some(TokenTag::Char)
    } else {
        None
    }
}

} // verus!
