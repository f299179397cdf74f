//! Tokens: a kind together with its source span.

use vstd::prelude::*;
use crate::token_type::{TokenType, TokenTypeView};

verus! {

/// A line or column number. Lines are 1-based; columns are 0-based and reset
/// on every newline.
pub type FilePosition = u64;

/// A token: a kind, the position of its first character, and the position
/// one past its last character.
#[derive(Debug, PartialEq)]
pub struct Token {
    pub token: TokenType,
    pub column: FilePosition,
    pub line: FilePosition,
    pub end_column: FilePosition,
    pub end_line: FilePosition,
}

/// The mathematical model of a token.
pub ghost struct TokenView {
    pub token: TokenTypeView,
    pub column: int,
    pub line: int,
    pub end_column: int,
    pub end_line: int,
}

impl View for Token {
    type V = TokenView;

    open spec fn view(&self) -> TokenView {
        TokenView {
            token: self.token@,
            column: self.column as int,
            line: self.line as int,
            end_column: self.end_column as int,
            end_line: self.end_line as int,
        }
    }
}

impl Token {
    /// A token spanning one character, starting at the given position.
    pub fn new_single_char(token: TokenType, column: FilePosition, line: FilePosition) -> (t:
        Token)
        requires
            column < u64::MAX,
        ensures
            t@ == (TokenView {
                token: token@,
                column: column as int,
                line: line as int,
                end_column: column as int + 1,
                end_line: line as int,
            }),
    {
        Token { token, column, line, end_column: column + 1, end_line: line }
    }

    /// A token spanning two characters, starting at the given position.
    pub fn new_two_char(token: TokenType, column: FilePosition, line: FilePosition) -> (t: Token)
        requires
            column < u64::MAX - 1,
        ensures
            t@ == (TokenView {
                token: token@,
                column: column as int,
                line: line as int,
                end_column: column as int + 2,
                end_line: line as int,
            }),
    {
        Token { token, column, line, end_column: column + 2, end_line: line }
    }

    /// A token with an explicit span.
    pub fn new(
        token: TokenType,
        column: FilePosition,
        line: FilePosition,
        end_column: FilePosition,
        end_line: FilePosition,
    ) -> (t: Token)
        ensures
            t@ == (TokenView {
                token: token@,
                column: column as int,
                line: line as int,
                end_column: end_column as int,
                end_line: end_line as int,
            }),
    {
        Token { token, column, line, end_line, end_column }
    }
}

} // verus!
