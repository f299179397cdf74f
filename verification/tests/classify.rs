use lexer::errors::TokenizationError;
use lexer::scanner::{get_escaped_char, update_position};
use lexer::token::Token;
use lexer::token_type::TokenType;

#[test]
fn single_char_table() {
    assert_eq!(TokenType::single_char_token('('), Some(TokenType::OpenParen));
    assert_eq!(TokenType::single_char_token(')'), Some(TokenType::CloseParen));
    assert_eq!(TokenType::single_char_token('{'), Some(TokenType::OpenBrace));
    assert_eq!(TokenType::single_char_token('}'), Some(TokenType::CloseBrace));
    assert_eq!(TokenType::single_char_token('['), Some(TokenType::OpenBracket));
    assert_eq!(TokenType::single_char_token(']'), Some(TokenType::CloseBracket));
    assert_eq!(TokenType::single_char_token('.'), Some(TokenType::Period));
    assert_eq!(TokenType::single_char_token('!'), Some(TokenType::Not));
    assert_eq!(TokenType::single_char_token('='), Some(TokenType::Assignment));
    assert_eq!(TokenType::single_char_token('a'), None);
    assert_eq!(TokenType::single_char_token('@'), None);
}

#[test]
fn two_char_table() {
    assert_eq!(TokenType::two_char_token('>', '='), Some(TokenType::GreaterOrEqual));
    assert_eq!(TokenType::two_char_token('<', '='), Some(TokenType::LessOrEqual));
    assert_eq!(TokenType::two_char_token('=', '='), Some(TokenType::Equal));
    assert_eq!(TokenType::two_char_token('=', '<'), None);
    assert_eq!(TokenType::two_char_token('>', '>'), None);
}

#[test]
fn keyword_table() {
    assert_eq!(TokenType::keyword_token("true"), TokenType::True);
    assert_eq!(TokenType::keyword_token("false"), TokenType::False);
    assert_eq!(TokenType::keyword_token("and"), TokenType::And);
    assert_eq!(TokenType::keyword_token("or"), TokenType::Or);
    assert_eq!(TokenType::keyword_token("xor"), TokenType::Xor);
    assert_eq!(TokenType::keyword_token("is"), TokenType::Is);
    assert_eq!(TokenType::keyword_token("_"), TokenType::IgnoreIdent);
    assert_eq!(TokenType::keyword_token("if"), TokenType::If);
    assert_eq!(TokenType::keyword_token("while"), TokenType::While);
    assert_eq!(TokenType::keyword_token("for"), TokenType::For);
    assert_eq!(TokenType::keyword_token("return"), TokenType::Return);
    assert_eq!(TokenType::keyword_token("break"), TokenType::Break);
    assert_eq!(TokenType::keyword_token("continue"), TokenType::Continue);
    assert_eq!(TokenType::keyword_token("fn"), TokenType::Function);
    assert_eq!(TokenType::keyword_token("class"), TokenType::Class);
    assert_eq!(TokenType::keyword_token("truest"), TokenType::Ident("truest".to_string()));
    assert_eq!(TokenType::keyword_token("If"), TokenType::Ident("If".to_string()));
}

#[test]
fn identifier_characters() {
    assert!(TokenType::is_identifier_char('a', true));
    assert!(TokenType::is_identifier_char('Z', true));
    assert!(TokenType::is_identifier_char('_', true));
    assert!(!TokenType::is_identifier_char('7', true));
    assert!(TokenType::is_identifier_char('7', false));
    assert!(!TokenType::is_identifier_char('-', false));
    assert!(!TokenType::is_identifier_char('é', true));
}

#[test]
fn string_delimiters() {
    assert!(TokenType::is_string_delimiter('"'));
    assert!(TokenType::is_string_delimiter('\''));
    assert!(!TokenType::is_string_delimiter('`'));
}

#[test]
fn ignored_characters() {
    assert!(TokenType::is_ignored_char(' '));
    assert!(TokenType::is_ignored_char('\t'));
    assert!(TokenType::is_ignored_char('\n'));
    assert!(TokenType::is_ignored_char('\u{2003}'));
    assert!(!TokenType::is_ignored_char('a'));
    assert!(!TokenType::is_ignored_char('@'));
    // These match std's Unicode whitespace test exactly.
    for c in ['\u{0b}', '\u{85}', '\u{a0}', '\u{1680}', '\u{200a}', '\u{2028}', '\u{202f}',
        '\u{205f}', '\u{3000}', '\u{200b}', 'x', '0']
    {
        assert_eq!(TokenType::is_ignored_char(c), c.is_whitespace());
    }
}

#[test]
fn escaped_characters() {
    assert_eq!(get_escaped_char('n', '"', 0, 1), Ok('\n'));
    assert_eq!(get_escaped_char('t', '"', 0, 1), Ok('\t'));
    assert_eq!(get_escaped_char('r', '"', 0, 1), Ok('\r'));
    assert_eq!(get_escaped_char('\\', '"', 0, 1), Ok('\\'));
    assert_eq!(get_escaped_char('"', '"', 0, 1), Ok('"'));
    assert_eq!(get_escaped_char('\'', '\'', 0, 1), Ok('\''));
    assert_eq!(
        get_escaped_char('q', '"', 3, 2),
        Err(TokenizationError::InvalidEscapeCharacter { ch: 'q', col: 3, line: 2 })
    );
    assert_eq!(
        get_escaped_char('"', '\'', 4, 1),
        Err(TokenizationError::InvalidEscapeCharacter { ch: '"', col: 4, line: 1 })
    );
}

#[test]
fn position_updates() {
    let mut column: u64 = 5;
    let mut line: u64 = 2;
    update_position('x', &mut column, &mut line);
    assert_eq!((column, line), (6, 2));
    update_position('\n', &mut column, &mut line);
    assert_eq!((column, line), (0, 3));
    update_position(' ', &mut column, &mut line);
    assert_eq!((column, line), (1, 3));
}

#[test]
fn token_constructors() {
    let t = Token::new_single_char(TokenType::Comma, 4, 2);
    assert_eq!((t.column, t.line, t.end_column, t.end_line), (4, 2, 5, 2));
    let t = Token::new_two_char(TokenType::Equal, 4, 2);
    assert_eq!((t.column, t.line, t.end_column, t.end_line), (4, 2, 6, 2));
    let t = Token::new(TokenType::Int(7), 1, 2, 3, 4);
    assert_eq!((t.column, t.line, t.end_column, t.end_line), (1, 2, 3, 4));
}
