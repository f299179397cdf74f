//! The tokenization error taxonomy and its human-readable messages.

use vstd::prelude::*;
use vstd::string::StringExecFns;
use crate::text::{append_u64, dec_str, push_char};
use crate::token::FilePosition;

verus! {

/// The single terminating error of a tokenization pass. Every variant carries
/// the position at which the problem was detected; for an unclosed string the
/// position is the string's opening delimiter.
#[derive(Debug, PartialEq, Eq)]
pub enum TokenizationError {
    UnrecognizedCharacter { ch: char, col: FilePosition, line: FilePosition },
    UnexpectedCharacter { ch: char, col: FilePosition, line: FilePosition },
    UnclosedString { col: FilePosition, line: FilePosition },
    InvalidEscapeCharacter { ch: char, col: FilePosition, line: FilePosition },
    NumOutOfRangeError { col: FilePosition, line: FilePosition },
}

/// The exact text of an error's message.
pub open spec fn spec_message(e: TokenizationError) -> Seq<char> {
    match e {
        TokenizationError::UnrecognizedCharacter { ch, col, line } => "Character '"@ + seq![ch]
            + "' is unrecognized.\nAt: line "@ + dec_str(line as int) + ", col "@ + dec_str(
        col as int),
        TokenizationError::UnexpectedCharacter { ch, col, line } => "Character '"@ + seq![ch]
            + "' is unexpected here.\nAt: line "@ + dec_str(line as int) + ", col "@ + dec_str(
        col as int),
        TokenizationError::UnclosedString { col, line } => "Unclosed string.\nAt: line "@
            + dec_str(line as int) + ", col "@ + dec_str(col as int),
        TokenizationError::InvalidEscapeCharacter { ch, col, line } => "Character '"@ + seq![ch]
            + "' cannot be escaped with a backslash.\nAt: line "@ + dec_str(line as int)
            + ", col "@ + dec_str(col as int),
        TokenizationError::NumOutOfRangeError { col, line } => "Number is out of range.\nAt: line "@
            + dec_str(line as int) + ", col "@ + dec_str(col as int),
    }
}

impl TokenizationError {
    /// The two-line human-readable message for this error.
    pub fn get_message(&self) -> (r: String)
        ensures
            r@ == spec_message(*self),
    {
        match self {
            TokenizationError::UnrecognizedCharacter { ch, col, line } => {
                let mut m = String::new();
                m.append("Character '");
                push_char(&mut m, *ch);
                m.append("' is unrecognized.\nAt: line ");
                append_u64(&mut m, *line);
                m.append(", col ");
                append_u64(&mut m, *col);
                proof {
                    assert(m@ =~= spec_message(*self));
                }
                m
            },
            TokenizationError::UnexpectedCharacter { ch, col, line } => {
                let mut m = String::new();
                m.append("Character '");
                push_char(&mut m, *ch);
                m.append("' is unexpected here.\nAt: line ");
                append_u64(&mut m, *line);
                m.append(", col ");
                append_u64(&mut m, *col);
                proof {
                    assert(m@ =~= spec_message(*self));
                }
                m
            },
            TokenizationError::UnclosedString { col, line } => {
                let mut m = String::new();
                m.append("Unclosed string.\nAt: line ");
                append_u64(&mut m, *line);
                m.append(", col ");
                append_u64(&mut m, *col);
                proof {
                    assert(m@ =~= spec_message(*self));
                }
                m
            },
            TokenizationError::InvalidEscapeCharacter { ch, col, line } => {
                let mut m = String::new();
                m.append("Character '");
                push_char(&mut m, *ch);
                m.append("' cannot be escaped with a backslash.\nAt: line ");
                append_u64(&mut m, *line);
                m.append(", col ");
                append_u64(&mut m, *col);
                proof {
                    assert(m@ =~= spec_message(*self));
                }
                m
            },
            TokenizationError::NumOutOfRangeError { col, line } => {
                let mut m = String::new();
                m.append("Number is out of range.\nAt: line ");
                append_u64(&mut m, *line);
                m.append(", col ");
                append_u64(&mut m, *col);
                proof {
                    assert(m@ =~= spec_message(*self));
                }
                m
            },
        }
    }
}

} // verus!
