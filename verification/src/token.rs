//! Tokens: the classified units that the lexer returns to a parser.

use crate::position::{Place, Position};
use vstd::prelude::*;

verus! {

/// What a token is.
#[derive(Debug, PartialEq, Eq)]
pub enum TokenType {
    /// The reserved word `abstract`, in any mix of upper and lower case.
    Abstract,
    /// A comma.
    Comma,
    /// The end of the input.
    EOF,
    /// Text that is no token, with a message that says why.
    Invalid(String),
    /// An identifier, by its name without the escaping underscore.
    Identifier(String),
    /// An integer literal, by its value. A literal that writes a number
    /// beyond the largest `i64` has that largest value.
    Integer(i64),
}

/// A token with the text it was read from and the places of its first and
/// last character.
#[derive(Debug, PartialEq, Eq)]
pub struct Token {
    pub token_type: TokenType,
    pub literal: String,
    pub start: Position,
    pub end: Position,
}

/// The mathematical value of a [`TokenType`].
pub enum Kind {
    Abstract,
    Comma,
    EOF,
    Invalid(Seq<char>),
    Identifier(Seq<char>),
    Integer(int),
}

/// The mathematical value of a [`Token`].
pub struct Lexeme {
    pub kind: Kind,
    pub literal: Seq<char>,
    pub start: Place,
    pub end: Place,
}

impl View for TokenType {
    type V = Kind;

    open spec fn view(&self) -> Kind {
        match *self {
            TokenType::Abstract => Kind::Abstract,
            TokenType::Comma => Kind::Comma,
            TokenType::EOF => Kind::EOF,
            TokenType::Invalid(message) => Kind::Invalid(message@),
            TokenType::Identifier(name) => Kind::Identifier(name@),
            TokenType::Integer(value) => Kind::Integer(value as int),
        }
    }
}

impl View for Token {
    type V = Lexeme;

    open spec fn view(&self) -> Lexeme {
        Lexeme {
            kind: self.token_type@,
            literal: self.literal@,
            start: self.start@,
            end: self.end@,
        }
    }
}

} // verus!
