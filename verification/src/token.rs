//! Tokens of the source language.

use vstd::prelude::*;
use vstd::string::StringExecFns;

verus! {

/// What sort of token a token is, without its text or value.
#[derive(Debug, Clone, Copy, PartialEq, Eq, Structural)]
pub enum TokenKind {
    Fn,
    Let,
    If,
    Else,
    While,
    Return,
    Break,
    Continue,
    Ident,
    Int,
    String,
    LParen,
    RParen,
    LBrace,
    RBrace,
    Comma,
    Semicolon,
    Equal,
    EqualEqual,
    Greater,
    Less,
    Plus,
    Minus,
    Star,
    Slash,
    EOF,
}

/// Model of a token.
pub enum SpecToken {
    Fn,
    Let,
    If,
    Else,
    While,
    Return,
    Break,
    Continue,
    Ident(Seq<char>),
    Int(i64),
    String(Seq<char>),
    LParen,
    RParen,
    LBrace,
    RBrace,
    Comma,
    Semicolon,
    Equal,
    EqualEqual,
    Greater,
    Less,
    Plus,
    Minus,
    Star,
    Slash,
    EOF,
}

impl SpecToken {
    pub open spec fn kind(self) -> TokenKind {
        match self {
            SpecToken::Fn => TokenKind::Fn,
            SpecToken::Let => TokenKind::Let,
            SpecToken::If => TokenKind::If,
            SpecToken::Else => TokenKind::Else,
            SpecToken::While => TokenKind::While,
            SpecToken::Return => TokenKind::Return,
            SpecToken::Break => TokenKind::Break,
            SpecToken::Continue => TokenKind::Continue,
            SpecToken::Ident(_) => TokenKind::Ident,
            SpecToken::Int(_) => TokenKind::Int,
            SpecToken::String(_) => TokenKind::String,
            SpecToken::LParen => TokenKind::LParen,
            SpecToken::RParen => TokenKind::RParen,
            SpecToken::LBrace => TokenKind::LBrace,
            SpecToken::RBrace => TokenKind::RBrace,
            SpecToken::Comma => TokenKind::Comma,
            SpecToken::Semicolon => TokenKind::Semicolon,
            SpecToken::Equal => TokenKind::Equal,
            SpecToken::EqualEqual => TokenKind::EqualEqual,
            SpecToken::Greater => TokenKind::Greater,
            SpecToken::Less => TokenKind::Less,
            SpecToken::Plus => TokenKind::Plus,
            SpecToken::Minus => TokenKind::Minus,
            SpecToken::Star => TokenKind::Star,
            SpecToken::Slash => TokenKind::Slash,
            SpecToken::EOF => TokenKind::EOF,
        }
    }
}

/// A token. Immutable once produced.
#[derive(Debug, PartialEq, Eq)]
pub enum Token {
    // Keywords
    Fn,
    Let,
    If,
    Else,
    While,
    Return,
    Break,
    Continue,
    // Identifiers and literals
    Ident(String),
    Int(i64),
    String(String),
    // Punctuation
    LParen,
    RParen,
    LBrace,
    RBrace,
    Comma,
    Semicolon,
    Equal,
    EqualEqual,
    Greater,
    Less,
    Plus,
    Minus,
    Star,
    Slash,
    /// The end of the input.
    EOF,
}

impl View for Token {
    type V = SpecToken;

    open spec fn view(&self) -> SpecToken {
        match self {
            Token::Fn => SpecToken::Fn,
            Token::Let => SpecToken::Let,
            Token::If => SpecToken::If,
            Token::Else => SpecToken::Else,
            Token::While => SpecToken::While,
            Token::Return => SpecToken::Return,
            Token::Break => SpecToken::Break,
            Token::Continue => SpecToken::Continue,
            Token::Ident(s) => SpecToken::Ident(s@),
            Token::Int(v) => SpecToken::Int(*v),
            Token::String(s) => SpecToken::String(s@),
            Token::LParen => SpecToken::LParen,
            Token::RParen => SpecToken::RParen,
            Token::LBrace => SpecToken::LBrace,
            Token::RBrace => SpecToken::RBrace,
            Token::Comma => SpecToken::Comma,
            Token::Semicolon => SpecToken::Semicolon,
            Token::Equal => SpecToken::Equal,
            Token::EqualEqual => SpecToken::EqualEqual,
            Token::Greater => SpecToken::Greater,
            Token::Less => SpecToken::Less,
            Token::Plus => SpecToken::Plus,
            Token::Minus => SpecToken::Minus,
            Token::Star => SpecToken::Star,
            Token::Slash => SpecToken::Slash,
            Token::EOF => SpecToken::EOF,
        }
    }
}

impl Clone for Token {
    fn clone(&self) -> (r: Self)
        ensures
            r@ == self@,
    {
        match self {
            Token::Fn => Token::Fn,
            Token::Let => Token::Let,
            Token::If => Token::If,
            Token::Else => Token::Else,
            Token::While => Token::While,
            Token::Return => Token::Return,
            Token::Break => Token::Break,
            Token::Continue => Token::Continue,
            Token::Ident(s) => Token::Ident(s.clone()),
            Token::Int(v) => Token::Int(*v),
            Token::String(s) => Token::String(s.clone()),
            Token::LParen => Token::LParen,
            Token::RParen => Token::RParen,
            Token::LBrace => Token::LBrace,
            Token::RBrace => Token::RBrace,
            Token::Comma => Token::Comma,
            Token::Semicolon => Token::Semicolon,
            Token::Equal => Token::Equal,
            Token::EqualEqual => Token::EqualEqual,
            Token::Greater => Token::Greater,
            Token::Less => Token::Less,
            Token::Plus => Token::Plus,
            Token::Minus => Token::Minus,
            Token::Star => Token::Star,
            Token::Slash => Token::Slash,
            Token::EOF => Token::EOF,
        }
    }
}

impl Token {
    /// What sort of token this is.
    pub fn kind(&self) -> (k: TokenKind)
        ensures
            k == self@.kind(),
    {
        match self {
            Token::Fn => TokenKind::Fn,
            Token::Let => TokenKind::Let,
            Token::If => TokenKind::If,
            Token::Else => TokenKind::Else,
            Token::While => TokenKind::While,
            Token::Return => TokenKind::Return,
            Token::Break => TokenKind::Break,
            Token::Continue => TokenKind::Continue,
            Token::Ident(_) => TokenKind::Ident,
            Token::Int(_) => TokenKind::Int,
            Token::String(_) => TokenKind::String,
            Token::LParen => TokenKind::LParen,
            Token::RParen => TokenKind::RParen,
            Token::LBrace => TokenKind::LBrace,
            Token::RBrace => TokenKind::RBrace,
            Token::Comma => TokenKind::Comma,
            Token::Semicolon => TokenKind::Semicolon,
            Token::Equal => TokenKind::Equal,
            Token::EqualEqual => TokenKind::EqualEqual,
            Token::Greater => TokenKind::Greater,
            Token::Less => TokenKind::Less,
            Token::Plus => TokenKind::Plus,
            Token::Minus => TokenKind::Minus,
            Token::Star => TokenKind::Star,
            Token::Slash => TokenKind::Slash,
            Token::EOF => TokenKind::EOF,
        }
    }
}

/// How a kind of token is named in a message.
pub open spec fn kind_name(k: TokenKind) -> Seq<char> {
    match k {
        TokenKind::Fn => "`fn`"@,
        TokenKind::Let => "`let`"@,
        TokenKind::If => "`if`"@,
        TokenKind::Else => "`else`"@,
        TokenKind::While => "`while`"@,
        TokenKind::Return => "`return`"@,
        TokenKind::Break => "`break`"@,
        TokenKind::Continue => "`continue`"@,
        TokenKind::Ident => "identifier"@,
        TokenKind::Int => "integer"@,
        TokenKind::String => "string"@,
        TokenKind::LParen => "`(`"@,
        TokenKind::RParen => "`)`"@,
        TokenKind::LBrace => "`{`"@,
        TokenKind::RBrace => "`}`"@,
        TokenKind::Comma => "`,`"@,
        TokenKind::Semicolon => "`;`"@,
        TokenKind::Equal => "`=`"@,
        TokenKind::EqualEqual => "`==`"@,
        TokenKind::Greater => "`>`"@,
        TokenKind::Less => "`<`"@,
        TokenKind::Plus => "`+`"@,
        TokenKind::Minus => "`-`"@,
        TokenKind::Star => "`*`"@,
        TokenKind::Slash => "`/`"@,
        TokenKind::EOF => "end of input"@,
    }
}

impl TokenKind {
    /// The name of this kind of token in a message.
    pub fn name(&self) -> (s: String)
        ensures
            s@ == kind_name(*self),
    {
        String::from_str(
            match self {
                TokenKind::Fn => "`fn`",
                TokenKind::Let => "`let`",
                TokenKind::If => "`if`",
                TokenKind::Else => "`else`",
                TokenKind::While => "`while`",
                TokenKind::Return => "`return`",
                TokenKind::Break => "`break`",
                TokenKind::Continue => "`continue`",
                TokenKind::Ident => "identifier",
                TokenKind::Int => "integer",
                TokenKind::String => "string",
                TokenKind::LParen => "`(`",
                TokenKind::RParen => "`)`",
                TokenKind::LBrace => "`{`",
                TokenKind::RBrace => "`}`",
                TokenKind::Comma => "`,`",
                TokenKind::Semicolon => "`;`",
                TokenKind::Equal => "`=`",
                TokenKind::EqualEqual => "`==`",
                TokenKind::Greater => "`>`",
                TokenKind::Less => "`<`",
                TokenKind::Plus => "`+`",
                TokenKind::Minus => "`-`",
                TokenKind::Star => "`*`",
                TokenKind::Slash => "`/`",
                TokenKind::EOF => "end of input",
            },
        )
    }
}

/// The models of a sequence of tokens, element by element.
pub open spec fn tokens_view(s: Seq<Token>) -> Seq<SpecToken> {
    Seq::new(s.len(), |i: int| s[i]@)
}

} // verus!
