//! The closed set of token kinds, and the classifier functions that map
//! characters and identifier text to kinds.

use vstd::prelude::*;
use crate::text::str_eq;

verus! {

/// A kind of token.
///
/// A numeric literal with a fractional part is kept in exact positional form:
/// the accumulated integer part (`whole`) and the fractional digits in source
/// order (`frac`, each entry a digit value `0..=9`). A consumer that wants a
/// binary floating-point value folds the digits itself.
#[derive(Debug, PartialEq)]
pub enum TokenType {
    // Literals carrying a value
    String(String),
    Ident(String),
    IgnoreIdent,
    Int(i64),
    Float { whole: i64, frac: Vec<u8> },
    // Grouping
    OpenParen,
    CloseParen,
    OpenBracket,
    CloseBracket,
    OpenBrace,
    CloseBrace,
    // Structure
    Comma,
    Period,
    Semicolon,
    Colon,
    // Math
    Plus,
    Minus,
    Asterisk,
    Slash,
    Percent,
    // Assignment
    Assignment,
    // Comparison
    GreaterThan,
    LessThan,
    GreaterOrEqual,
    LessOrEqual,
    Equal,
    // Boolean algebra
    True,
    False,
    Not,
    And,
    Or,
    Xor,
    // Statement
    If,
    While,
    For,
    Break,
    Continue,
    Return,
    // Declaration
    Function,
    Class,
    // Misc.
    Is,
}

/// The mathematical model of a token kind: text as a sequence of characters,
/// numbers as unbounded integers.
pub ghost enum TokenTypeView {
    String(Seq<char>),
    Ident(Seq<char>),
    IgnoreIdent,
    Int(int),
    Float { whole: int, frac: Seq<u8> },
    OpenParen,
    CloseParen,
    OpenBracket,
    CloseBracket,
    OpenBrace,
    CloseBrace,
    Comma,
    Period,
    Semicolon,
    Colon,
    Plus,
    Minus,
    Asterisk,
    Slash,
    Percent,
    Assignment,
    GreaterThan,
    LessThan,
    GreaterOrEqual,
    LessOrEqual,
    Equal,
    True,
    False,
    Not,
    And,
    Or,
    Xor,
    If,
    While,
    For,
    Break,
    Continue,
    Return,
    Function,
    Class,
    Is,
}

impl View for TokenType {
    type V = TokenTypeView;

    open spec fn view(&self) -> TokenTypeView {
        match self {
            TokenType::String(s) => TokenTypeView::String(s@),
            TokenType::Ident(s) => TokenTypeView::Ident(s@),
            TokenType::IgnoreIdent => TokenTypeView::IgnoreIdent,
            TokenType::Int(v) => TokenTypeView::Int(*v as int),
            TokenType::Float { whole, frac } => TokenTypeView::Float {
                whole: *whole as int,
                frac: frac@,
            },
            TokenType::OpenParen => TokenTypeView::OpenParen,
            TokenType::CloseParen => TokenTypeView::CloseParen,
            TokenType::OpenBracket => TokenTypeView::OpenBracket,
            TokenType::CloseBracket => TokenTypeView::CloseBracket,
            TokenType::OpenBrace => TokenTypeView::OpenBrace,
            TokenType::CloseBrace => TokenTypeView::CloseBrace,
            TokenType::Comma => TokenTypeView::Comma,
            TokenType::Period => TokenTypeView::Period,
            TokenType::Semicolon => TokenTypeView::Semicolon,
            TokenType::Colon => TokenTypeView::Colon,
            TokenType::Plus => TokenTypeView::Plus,
            TokenType::Minus => TokenTypeView::Minus,
            TokenType::Asterisk => TokenTypeView::Asterisk,
            TokenType::Slash => TokenTypeView::Slash,
            TokenType::Percent => TokenTypeView::Percent,
            TokenType::Assignment => TokenTypeView::Assignment,
            TokenType::GreaterThan => TokenTypeView::GreaterThan,
            TokenType::LessThan => TokenTypeView::LessThan,
            TokenType::GreaterOrEqual => TokenTypeView::GreaterOrEqual,
            TokenType::LessOrEqual => TokenTypeView::LessOrEqual,
            TokenType::Equal => TokenTypeView::Equal,
            TokenType::True => TokenTypeView::True,
            TokenType::False => TokenTypeView::False,
            TokenType::Not => TokenTypeView::Not,
            TokenType::And => TokenTypeView::And,
            TokenType::Or => TokenTypeView::Or,
            TokenType::Xor => TokenTypeView::Xor,
            TokenType::If => TokenTypeView::If,
            TokenType::While => TokenTypeView::While,
            TokenType::For => TokenTypeView::For,
            TokenType::Break => TokenTypeView::Break,
            TokenType::Continue => TokenTypeView::Continue,
            TokenType::Return => TokenTypeView::Return,
            TokenType::Function => TokenTypeView::Function,
            TokenType::Class => TokenTypeView::Class,
            TokenType::Is => TokenTypeView::Is,
        }
    }
}

/// The view of an optional token kind.
pub open spec fn option_token_view(r: Option<TokenType>) -> Option<TokenTypeView> {
    match r {
        Some(t) => Some(t@),
        None => None,
    }
}

/// A decimal digit `'0'..='9'`.
pub open spec fn spec_is_digit(c: char) -> bool {
    48 <= c as u32 && c as u32 <= 57
}

/// The numeric value of a decimal digit character.
pub open spec fn digit_value(c: char) -> int {
    c as u32 - 48
}

/// A character allowed in identifiers: ASCII letters and `_` anywhere,
/// digits anywhere but at the beginning.
pub open spec fn spec_is_identifier_char(c: char, beginning: bool) -> bool {
    (97 <= c as u32 && c as u32 <= 122) || (65 <= c as u32 && c as u32 <= 90) || c == '_' || (
    !beginning && spec_is_digit(c))
}

/// A string delimiter: `"` or `'`.
pub open spec fn spec_is_string_delimiter(c: char) -> bool {
    c == '"' || c == '\''
}

/// A character the scanner skips: exactly the characters with the Unicode
/// `White_Space` property.
pub open spec fn spec_is_ignored_char(c: char) -> bool {
    ||| c == '\u{09}'
    ||| c == '\u{0A}'
    ||| c == '\u{0B}'
    ||| c == '\u{0C}'
    ||| c == '\u{0D}'
    ||| c == ' '
    ||| c == '\u{85}'
    ||| c == '\u{A0}'
    ||| c == '\u{1680}'
    ||| (0x2000 <= c as u32 && c as u32 <= 0x200A)
    ||| c == '\u{2028}'
    ||| c == '\u{2029}'
    ||| c == '\u{202F}'
    ||| c == '\u{205F}'
    ||| c == '\u{3000}'
}

/// The fixed one-character token table.
pub open spec fn spec_single_char_token(c: char) -> Option<TokenTypeView> {
    if c == '(' {
        Some(TokenTypeView::OpenParen)
    } else if c == ')' {
        Some(TokenTypeView::CloseParen)
    } else if c == '{' {
        Some(TokenTypeView::OpenBrace)
    } else if c == '}' {
        Some(TokenTypeView::CloseBrace)
    } else if c == '[' {
        Some(TokenTypeView::OpenBracket)
    } else if c == ']' {
        Some(TokenTypeView::CloseBracket)
    } else if c == ',' {
        Some(TokenTypeView::Comma)
    } else if c == '.' {
        Some(TokenTypeView::Period)
    } else if c == ';' {
        Some(TokenTypeView::Semicolon)
    } else if c == ':' {
        Some(TokenTypeView::Colon)
    } else if c == '+' {
        Some(TokenTypeView::Plus)
    } else if c == '-' {
        Some(TokenTypeView::Minus)
    } else if c == '*' {
        Some(TokenTypeView::Asterisk)
    } else if c == '/' {
        Some(TokenTypeView::Slash)
    } else if c == '%' {
        Some(TokenTypeView::Percent)
    } else if c == '=' {
        Some(TokenTypeView::Assignment)
    } else if c == '!' {
        Some(TokenTypeView::Not)
    } else if c == '<' {
        Some(TokenTypeView::LessThan)
    } else if c == '>' {
        Some(TokenTypeView::GreaterThan)
    } else {
        None
    }
}

/// The fixed two-character token table: `>=`, `<=`, `==`.
pub open spec fn spec_two_char_token(c1: char, c2: char) -> Option<TokenTypeView> {
    if c1 == '>' && c2 == '=' {
        Some(TokenTypeView::GreaterOrEqual)
    } else if c1 == '<' && c2 == '=' {
        Some(TokenTypeView::LessOrEqual)
    } else if c1 == '=' && c2 == '=' {
        Some(TokenTypeView::Equal)
    } else {
        None
    }
}

/// The fixed keyword table; unmatched text is an ordinary identifier,
/// except the lone `_`, which marks an ignored identifier.
pub open spec fn spec_keyword_token(s: Seq<char>) -> TokenTypeView {
    if s == "true"@ {
        TokenTypeView::True
    } else if s == "false"@ {
        TokenTypeView::False
    } else if s == "and"@ {
        TokenTypeView::And
    } else if s == "or"@ {
        TokenTypeView::Or
    } else if s == "xor"@ {
        TokenTypeView::Xor
    } else if s == "is"@ {
        TokenTypeView::Is
    } else if s == "_"@ {
        TokenTypeView::IgnoreIdent
    } else if s == "if"@ {
        TokenTypeView::If
    } else if s == "while"@ {
        TokenTypeView::While
    } else if s == "for"@ {
        TokenTypeView::For
    } else if s == "return"@ {
        TokenTypeView::Return
    } else if s == "break"@ {
        TokenTypeView::Break
    } else if s == "continue"@ {
        TokenTypeView::Continue
    } else if s == "fn"@ {
        TokenTypeView::Function
    } else if s == "class"@ {
        TokenTypeView::Class
    } else {
        TokenTypeView::Ident(s)
    }
}

impl TokenType {
    /// Converts a single character into a TokenType for basic tokens, otherwise None.
    pub fn single_char_token(ch: char) -> (r: Option<TokenType>)
        ensures
            option_token_view(r) == spec_single_char_token(ch),
    {
        match ch {
            '(' => Some(TokenType::OpenParen),
            ')' => Some(TokenType::CloseParen),
            '{' => Some(TokenType::OpenBrace),
            '}' => Some(TokenType::CloseBrace),
            '[' => Some(TokenType::OpenBracket),
            ']' => Some(TokenType::CloseBracket),
            ',' => Some(TokenType::Comma),
            '.' => Some(TokenType::Period),
            ';' => Some(TokenType::Semicolon),
            ':' => Some(TokenType::Colon),
            '+' => Some(TokenType::Plus),
            '-' => Some(TokenType::Minus),
            '*' => Some(TokenType::Asterisk),
            '/' => Some(TokenType::Slash),
            '%' => Some(TokenType::Percent),
            '=' => Some(TokenType::Assignment),
            '!' => Some(TokenType::Not),
            '<' => Some(TokenType::LessThan),
            '>' => Some(TokenType::GreaterThan),
            _ => None,
        }
    }

    /// Converts a two-character window into a TokenType, otherwise None.
    pub fn two_char_token(ch1: char, ch2: char) -> (r: Option<TokenType>)
        ensures
            option_token_view(r) == spec_two_char_token(ch1, ch2),
    {
        if ch1 == '>' && ch2 == '=' {
            Some(TokenType::GreaterOrEqual)
        } else if ch1 == '<' && ch2 == '=' {
            Some(TokenType::LessOrEqual)
        } else if ch1 == '=' && ch2 == '=' {
            Some(TokenType::Equal)
        } else {
            None
        }
    }

    /// Returns a TokenType from identifier text, accounting for keywords like "true".
    pub fn keyword_token(s: &str) -> (r: TokenType)
        ensures
            r@ == spec_keyword_token(s@),
    {
        if str_eq(s, "true") {
            TokenType::True
        } else if str_eq(s, "false") {
            TokenType::False
        } else if str_eq(s, "and") {
            TokenType::And
        } else if str_eq(s, "or") {
            TokenType::Or
        } else if str_eq(s, "xor") {
            TokenType::Xor
        } else if str_eq(s, "is") {
            TokenType::Is
        } else if str_eq(s, "_") {
            TokenType::IgnoreIdent
        } else if str_eq(s, "if") {
            TokenType::If
        } else if str_eq(s, "while") {
            TokenType::While
        } else if str_eq(s, "for") {
            TokenType::For
        } else if str_eq(s, "return") {
            TokenType::Return
        } else if str_eq(s, "break") {
            TokenType::Break
        } else if str_eq(s, "continue") {
            TokenType::Continue
        } else if str_eq(s, "fn") {
            TokenType::Function
        } else if str_eq(s, "class") {
            TokenType::Class
        } else {
            TokenType::Ident(s.to_owned())
        }
    }

    /// Determines if a character is allowed in identifiers.
    pub fn is_identifier_char(ch: char, beginning: bool) -> (r: bool)
        ensures
            r == spec_is_identifier_char(ch, beginning),
    {
        let u = ch as u32;
        (97 <= u && u <= 122) || (65 <= u && u <= 90) || ch == '_' || (!beginning && 48 <= u && u
            <= 57)
    }

    /// Determines if a character is a string delimiter (" or ').
    pub fn is_string_delimiter(ch: char) -> (r: bool)
        ensures
            r == spec_is_string_delimiter(ch),
    {
        ch == '"' || ch == '\''
    }

    /// Returns if a character should be ignored (Unicode whitespace).
    pub fn is_ignored_char(ch: char) -> (r: bool)
        ensures
            r == spec_is_ignored_char(ch),
    {
        let u = ch as u32;
        ch == '\u{09}' || ch == '\u{0A}' || ch == '\u{0B}' || ch == '\u{0C}' || ch == '\u{0D}'
            || ch == ' ' || ch == '\u{85}' || ch == '\u{A0}' || ch == '\u{1680}' || (0x2000 <= u
            && u <= 0x200A) || ch == '\u{2028}' || ch == '\u{2029}' || ch == '\u{202F}' || ch
            == '\u{205F}' || ch == '\u{3000}'
    }
}

} // verus!
