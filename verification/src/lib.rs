pub mod errors;
pub mod laws;
pub mod scanner;
pub mod text;
pub mod token;
pub mod token_type;

pub use crate::errors::TokenizationError;
pub use crate::scanner::{get_escaped_char, tokenize, update_position};
pub use crate::token::{FilePosition, Token};
pub use crate::token_type::TokenType;
