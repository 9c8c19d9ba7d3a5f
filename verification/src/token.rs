//! Tokens and their positions in the source text.

use vstd::prelude::*;

verus! {

/// Where a token or a node of the syntax tree stands: a line, a column in
/// that line, and the number of characters it covers.
#[derive(Debug, Clone, Copy, PartialEq, Eq, Structural)]
pub struct Position {
    pub line: usize,
    pub column: usize,
    pub length: usize,
}

impl Position {
    /// A position from its three parts.
    pub fn new(line: usize, column: usize, length: usize) -> (position: Position)
        ensures
            position == (Position { line, column, length }),
    {
        Position { line, column, length }
    }

    /// The span of the position within its line: where it starts and how
    /// many characters it covers.
    pub open spec fn span(self) -> (usize, usize) {
        (self.column, self.length)
    }
}

/// The kinds of token.
#[derive(Debug, Clone, Copy, PartialEq, Eq, Structural)]
pub enum TokenType {
    Int,
    Float,
    Str,
    Raw,
    Char,
    Bool,
    Identifier,
    Keyword,
    Operator,
    Symbol,
    EOF,
}

/// A lexeme with its kind and position.
#[derive(Debug)]
pub struct Token {
    pub token_type: TokenType,
    pub position: Position,
    pub lexeme: String,
}

/// Mathematical value of a [`Token`].
pub struct TokenModel {
    pub token_type: TokenType,
    pub position: Position,
    pub lexeme: Seq<char>,
}

impl View for Token {
    type V = TokenModel;

    open spec fn view(&self) -> TokenModel {
        TokenModel { token_type: self.token_type, position: self.position, lexeme: self.lexeme@ }
    }
}

impl Token {
    /// A token from its parts.
    pub fn new(token_type: TokenType, position: Position, lexeme: String) -> (token: Token)
        ensures
            token.token_type == token_type,
            token.position == position,
            token.lexeme == lexeme,
    {
        Token { token_type, position, lexeme }
    }
}

impl Clone for Token {
    fn clone(&self) -> (copy: Token)
        ensures
            copy@ == self@,
    {
        Token { token_type: self.token_type, position: self.position, lexeme: self.lexeme.clone() }
    }
}

/// The token that marks the end of the input when the cursor stands at the
/// given line and column.
pub open spec fn end_of_input(pos: (usize, usize)) -> TokenModel {
    TokenModel {
        token_type: TokenType::EOF,
        position: Position { line: pos.0, column: pos.1, length: 0 },
        lexeme: Seq::empty(),
    }
}

} // verus!
