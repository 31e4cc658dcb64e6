//! The lexical categories, and tokens: a category plus the location it was
//! scanned at. Tokens are created once by the scanner and read-only
//! afterward; their equality is structural.

use vstd::prelude::*;

use crate::location::{Location, LocationModel};
use crate::numbers::Number;

verus! {

/// The closed set of lexical categories. Identifiers, string literals and
/// numbers carry their payload inline.
#[derive(Debug)]
pub enum TokenType {
    LeftParen,
    RightParen,
    LeftBrace,
    RightBrace,
    Comma,
    Dot,
    Minus,
    Plus,
    SemiColon,
    Slash,
    Star,
    Bang,
    BangEqual,
    Equal,
    EqualEqual,
    Greater,
    GreaterEqual,
    Less,
    LessEqual,
    Identifier(String),
    String(String),
    Number(Number),
    And,
    Class,
    Else,
    False,
    Fun,
    For,
    If,
    Nil,
    Or,
    Print,
    Return,
    Super,
    This,
    True,
    Var,
    While,
    Eof,
}

/// The model of a category: strings as character sequences, numbers as raw
/// counts of millionths.
pub enum TokenTypeModel {
    LeftParen,
    RightParen,
    LeftBrace,
    RightBrace,
    Comma,
    Dot,
    Minus,
    Plus,
    SemiColon,
    Slash,
    Star,
    Bang,
    BangEqual,
    Equal,
    EqualEqual,
    Greater,
    GreaterEqual,
    Less,
    LessEqual,
    Identifier(Seq<char>),
    String(Seq<char>),
    Number(int),
    And,
    Class,
    Else,
    False,
    Fun,
    For,
    If,
    Nil,
    Or,
    Print,
    Return,
    Super,
    This,
    True,
    Var,
    While,
    Eof,
}

impl TokenType {
    /// The model of this category.
    pub open spec fn model(self) -> TokenTypeModel {
        match self {
            TokenType::LeftParen => TokenTypeModel::LeftParen,
            TokenType::RightParen => TokenTypeModel::RightParen,
            TokenType::LeftBrace => TokenTypeModel::LeftBrace,
            TokenType::RightBrace => TokenTypeModel::RightBrace,
            TokenType::Comma => TokenTypeModel::Comma,
            TokenType::Dot => TokenTypeModel::Dot,
            TokenType::Minus => TokenTypeModel::Minus,
            TokenType::Plus => TokenTypeModel::Plus,
            TokenType::SemiColon => TokenTypeModel::SemiColon,
            TokenType::Slash => TokenTypeModel::Slash,
            TokenType::Star => TokenTypeModel::Star,
            TokenType::Bang => TokenTypeModel::Bang,
            TokenType::BangEqual => TokenTypeModel::BangEqual,
            TokenType::Equal => TokenTypeModel::Equal,
            TokenType::EqualEqual => TokenTypeModel::EqualEqual,
            TokenType::Greater => TokenTypeModel::Greater,
            TokenType::GreaterEqual => TokenTypeModel::GreaterEqual,
            TokenType::Less => TokenTypeModel::Less,
            TokenType::LessEqual => TokenTypeModel::LessEqual,
            TokenType::Identifier(s) => TokenTypeModel::Identifier(s@),
            TokenType::String(s) => TokenTypeModel::String(s@),
            TokenType::Number(n) => TokenTypeModel::Number(n.raw as int),
            TokenType::And => TokenTypeModel::And,
            TokenType::Class => TokenTypeModel::Class,
            TokenType::Else => TokenTypeModel::Else,
            TokenType::False => TokenTypeModel::False,
            TokenType::Fun => TokenTypeModel::Fun,
            TokenType::For => TokenTypeModel::For,
            TokenType::If => TokenTypeModel::If,
            TokenType::Nil => TokenTypeModel::Nil,
            TokenType::Or => TokenTypeModel::Or,
            TokenType::Print => TokenTypeModel::Print,
            TokenType::Return => TokenTypeModel::Return,
            TokenType::Super => TokenTypeModel::Super,
            TokenType::This => TokenTypeModel::This,
            TokenType::True => TokenTypeModel::True,
            TokenType::Var => TokenTypeModel::Var,
            TokenType::While => TokenTypeModel::While,
            TokenType::Eof => TokenTypeModel::Eof,
        }
    }
}

impl Clone for TokenType {
    fn clone(&self) -> (r: Self)
        ensures
            r == *self,
    {
        match self {
            TokenType::LeftParen => TokenType::LeftParen,
            TokenType::RightParen => TokenType::RightParen,
            TokenType::LeftBrace => TokenType::LeftBrace,
            TokenType::RightBrace => TokenType::RightBrace,
            TokenType::Comma => TokenType::Comma,
            TokenType::Dot => TokenType::Dot,
            TokenType::Minus => TokenType::Minus,
            TokenType::Plus => TokenType::Plus,
            TokenType::SemiColon => TokenType::SemiColon,
            TokenType::Slash => TokenType::Slash,
            TokenType::Star => TokenType::Star,
            TokenType::Bang => TokenType::Bang,
            TokenType::BangEqual => TokenType::BangEqual,
            TokenType::Equal => TokenType::Equal,
            TokenType::EqualEqual => TokenType::EqualEqual,
            TokenType::Greater => TokenType::Greater,
            TokenType::GreaterEqual => TokenType::GreaterEqual,
            TokenType::Less => TokenType::Less,
            TokenType::LessEqual => TokenType::LessEqual,
            TokenType::Identifier(s) => TokenType::Identifier(s.clone()),
            TokenType::String(s) => TokenType::String(s.clone()),
            TokenType::Number(n) => TokenType::Number(*n),
            TokenType::And => TokenType::And,
            TokenType::Class => TokenType::Class,
            TokenType::Else => TokenType::Else,
            TokenType::False => TokenType::False,
            TokenType::Fun => TokenType::Fun,
            TokenType::For => TokenType::For,
            TokenType::If => TokenType::If,
            TokenType::Nil => TokenType::Nil,
            TokenType::Or => TokenType::Or,
            TokenType::Print => TokenType::Print,
            TokenType::Return => TokenType::Return,
            TokenType::Super => TokenType::Super,
            TokenType::This => TokenType::This,
            TokenType::True => TokenType::True,
            TokenType::Var => TokenType::Var,
            TokenType::While => TokenType::While,
            TokenType::Eof => TokenType::Eof,
        }
    }
}

impl PartialEq for TokenType {
    fn eq(&self, other: &Self) -> (r: bool) {
        match (self, other) {
            (TokenType::LeftParen, TokenType::LeftParen) => true,
            (TokenType::RightParen, TokenType::RightParen) => true,
            (TokenType::LeftBrace, TokenType::LeftBrace) => true,
            (TokenType::RightBrace, TokenType::RightBrace) => true,
            (TokenType::Comma, TokenType::Comma) => true,
            (TokenType::Dot, TokenType::Dot) => true,
            (TokenType::Minus, TokenType::Minus) => true,
            (TokenType::Plus, TokenType::Plus) => true,
            (TokenType::SemiColon, TokenType::SemiColon) => true,
            (TokenType::Slash, TokenType::Slash) => true,
            (TokenType::Star, TokenType::Star) => true,
            (TokenType::Bang, TokenType::Bang) => true,
            (TokenType::BangEqual, TokenType::BangEqual) => true,
            (TokenType::Equal, TokenType::Equal) => true,
            (TokenType::EqualEqual, TokenType::EqualEqual) => true,
            (TokenType::Greater, TokenType::Greater) => true,
            (TokenType::GreaterEqual, TokenType::GreaterEqual) => true,
            (TokenType::Less, TokenType::Less) => true,
            (TokenType::LessEqual, TokenType::LessEqual) => true,
            (TokenType::Identifier(a), TokenType::Identifier(b)) => *a == *b,
            (TokenType::String(a), TokenType::String(b)) => *a == *b,
            (TokenType::Number(a), TokenType::Number(b)) => a.raw == b.raw,
            (TokenType::And, TokenType::And) => true,
            (TokenType::Class, TokenType::Class) => true,
            (TokenType::Else, TokenType::Else) => true,
            (TokenType::False, TokenType::False) => true,
            (TokenType::Fun, TokenType::Fun) => true,
            (TokenType::For, TokenType::For) => true,
            (TokenType::If, TokenType::If) => true,
            (TokenType::Nil, TokenType::Nil) => true,
            (TokenType::Or, TokenType::Or) => true,
            (TokenType::Print, TokenType::Print) => true,
            (TokenType::Return, TokenType::Return) => true,
            (TokenType::Super, TokenType::Super) => true,
            (TokenType::This, TokenType::This) => true,
            (TokenType::True, TokenType::True) => true,
            (TokenType::Var, TokenType::Var) => true,
            (TokenType::While, TokenType::While) => true,
            (TokenType::Eof, TokenType::Eof) => true,
            _ => false,
        }
    }
}

impl Eq for TokenType {}

impl vstd::std_specs::cmp::PartialEqSpecImpl for TokenType {
    open spec fn obeys_eq_spec() -> bool {
        true
    }

    open spec fn eq_spec(&self, other: &Self) -> bool {
        self.model() == other.model()
    }
}

/// A token: its category and where it was scanned.
#[derive(Debug)]
pub struct Token {
    pub token_type: TokenType,
    pub location: Location,
}

/// The model of a token.
pub struct TokenModel {
    pub token_type: TokenTypeModel,
    pub location: LocationModel,
}

impl Token {
    /// The model of this token.
    pub open spec fn model(self) -> TokenModel {
        TokenModel { token_type: self.token_type.model(), location: self.location.model() }
    }

    pub fn new(token_type: TokenType, location: Location) -> (r: Token)
        ensures
            r == (Token { token_type, location }),
    {
        Token { token_type, location }
    }
}

impl Clone for Token {
    fn clone(&self) -> (r: Self)
        ensures
            r == *self,
    {
        Token { token_type: self.token_type.clone(), location: self.location.clone() }
    }
}

impl PartialEq for Token {
    fn eq(&self, other: &Self) -> (r: bool) {
        self.token_type == other.token_type && self.location == other.location
    }
}

impl Eq for Token {}

impl vstd::std_specs::cmp::PartialEqSpecImpl for Token {
    open spec fn obeys_eq_spec() -> bool {
        true
    }

    open spec fn eq_spec(&self, other: &Self) -> bool {
        self.model() == other.model()
    }
}

} // verus!
