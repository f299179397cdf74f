use lexer::errors::TokenizationError;
use lexer::scanner::tokenize;
use lexer::token::Token;
use lexer::token_type::TokenType;

/// Folds a float token's parts into an `f64` exactly as a consumer of the
/// token stream would: the whole part, plus each fractional digit at its
/// decimal place.
fn float_value(whole: i64, frac: &[u8]) -> f64 {
    let mut value = whole as f64;
    let mut position = 0.1f64;
    for &d in frac {
        value += position * (d as f64);
        position /= 10.0;
    }
    value
}

fn kinds(tokens: &[Token]) -> Vec<&TokenType> {
    tokens.iter().map(|t| &t.token).collect()
}

#[test]
fn empty_input() {
    assert_eq!(tokenize("").unwrap(), vec![]);
}

#[test]
fn whitespace_only_inputs() {
    assert_eq!(tokenize(" ").unwrap(), vec![]);
    assert_eq!(tokenize("   \t\r\n  \n").unwrap(), vec![]);
    assert_eq!(tokenize("\u{a0}\u{2003}\u{3000}").unwrap(), vec![]);
}

#[test]
fn integer_literals() {
    assert_eq!(
        tokenize("0").unwrap(),
        vec![Token { token: TokenType::Int(0), column: 0, line: 1, end_column: 1, end_line: 1 }]
    );
    assert_eq!(
        tokenize("42").unwrap(),
        vec![Token { token: TokenType::Int(42), column: 0, line: 1, end_column: 2, end_line: 1 }]
    );
    assert_eq!(
        tokenize("1_000").unwrap(),
        vec![Token { token: TokenType::Int(1000), column: 0, line: 1, end_column: 5, end_line: 1 }]
    );
}

#[test]
fn largest_integer_literal() {
    let tokens = tokenize("9223372036854775807").unwrap();
    assert_eq!(kinds(&tokens), vec![&TokenType::Int(i64::MAX)]);
}

#[test]
fn number_row() {
    // A digit-less dot after the integer digits still starts a fractional
    // part, so a trailing "2." is a float with no fractional digits.
    let tokens = tokenize("2 3.0 .4 0.4 2.").unwrap();
    assert_eq!(
        kinds(&tokens),
        vec![
            &TokenType::Int(2),
            &TokenType::Float { whole: 3, frac: vec![0] },
            &TokenType::Float { whole: 0, frac: vec![4] },
            &TokenType::Float { whole: 0, frac: vec![4] },
            &TokenType::Float { whole: 2, frac: vec![] },
        ]
    );
    assert_eq!(float_value(3, &[0]), 3.0);
    assert_eq!(float_value(0, &[4]), 0.4);
    assert_eq!(float_value(2, &[]), 2.0);
}

#[test]
fn leading_dot_equals_explicit_zero() {
    // `.4` and `0.4` carry the same value.
    let a = tokenize(".4").unwrap();
    let b = tokenize("0.4").unwrap();
    match (&a[0].token, &b[0].token) {
        (
            TokenType::Float { whole: wa, frac: fa },
            TokenType::Float { whole: wb, frac: fb },
        ) => {
            assert_eq!(float_value(*wa, fa), float_value(*wb, fb));
        }
        other => panic!("expected two floats, got {:?}", other),
    }
}

#[test]
fn float_spans_and_underscores() {
    assert_eq!(
        tokenize("1_2.5_0").unwrap(),
        vec![Token {
            token: TokenType::Float { whole: 12, frac: vec![5, 0] },
            column: 0,
            line: 1,
            end_column: 7,
            end_line: 1,
        }]
    );
}

#[test]
fn lone_dot_is_unexpected_character() {
    // A `.` with no digit after it is an error, not a Period token.
    assert_eq!(
        tokenize("."),
        Err(TokenizationError::UnexpectedCharacter { ch: '.', col: 0, line: 1 })
    );
    assert_eq!(
        tokenize("a.b"),
        Err(TokenizationError::UnexpectedCharacter { ch: '.', col: 1, line: 1 })
    );
}

#[test]
fn integer_overflow_is_an_error() {
    // 19 nines no longer fit in an i64: the 19th digit (column 18) overflows.
    assert_eq!(
        tokenize("99999999999999999999"),
        Err(TokenizationError::NumOutOfRangeError { col: 18, line: 1 })
    );
    // The same digits with a smaller prefix overflow one digit later.
    assert_eq!(
        tokenize("19999999999999999999"),
        Err(TokenizationError::NumOutOfRangeError { col: 19, line: 1 })
    );
}

#[test]
fn keywords_and_operators() {
    let tokens = tokenize("if (x == y) { }").unwrap();
    assert_eq!(
        kinds(&tokens),
        vec![
            &TokenType::If,
            &TokenType::OpenParen,
            &TokenType::Ident("x".to_string()),
            &TokenType::Equal,
            &TokenType::Ident("y".to_string()),
            &TokenType::CloseParen,
            &TokenType::OpenBrace,
            &TokenType::CloseBrace,
        ]
    );
    // The two-character `==` spans columns 6..8.
    assert_eq!(tokens[3].column, 6);
    assert_eq!(tokens[3].end_column, 8);
}

#[test]
fn two_char_operators_not_split() {
    let tokens = tokenize("<= >= ==").unwrap();
    assert_eq!(
        kinds(&tokens),
        vec![&TokenType::LessOrEqual, &TokenType::GreaterOrEqual, &TokenType::Equal]
    );
    let tokens = tokenize("< > <>").unwrap();
    assert_eq!(
        kinds(&tokens),
        vec![
            &TokenType::LessThan,
            &TokenType::GreaterThan,
            &TokenType::LessThan,
            &TokenType::GreaterThan,
        ]
    );
}

#[test]
fn lone_equals_sign_is_assignment() {
    // A `=` not followed by another `=` is the assignment token.
    assert_eq!(
        tokenize("=").unwrap(),
        vec![Token {
            token: TokenType::Assignment,
            column: 0,
            line: 1,
            end_column: 1,
            end_line: 1,
        }]
    );
    let tokens = tokenize("x = 5").unwrap();
    assert_eq!(
        kinds(&tokens),
        vec![
            &TokenType::Ident("x".to_string()),
            &TokenType::Assignment,
            &TokenType::Int(5),
        ]
    );
    // `==` still wins over two assignments.
    assert_eq!(kinds(&tokenize("== =").unwrap()), vec![&TokenType::Equal, &TokenType::Assignment]);
}

#[test]
fn string_escape_round_trip() {
    let tokens = tokenize("\"a\\nb\"").unwrap();
    assert_eq!(
        tokens,
        vec![Token {
            token: TokenType::String("a\nb".to_string()),
            column: 0,
            line: 1,
            end_column: 6,
            end_line: 1,
        }]
    );
}

#[test]
fn string_escapes_all_forms() {
    let tokens = tokenize("\"\\t\\r\\\\\\\"\" '\\''").unwrap();
    assert_eq!(
        kinds(&tokens),
        vec![
            &TokenType::String("\t\r\\\"".to_string()),
            &TokenType::String("'".to_string()),
        ]
    );
}

#[test]
fn string_with_other_delimiter_inside() {
    let tokens = tokenize("'he said \"hi\"'").unwrap();
    assert_eq!(kinds(&tokens), vec![&TokenType::String("he said \"hi\"".to_string())]);
}

#[test]
fn empty_string_literal() {
    let tokens = tokenize("\"\"").unwrap();
    assert_eq!(kinds(&tokens), vec![&TokenType::String(String::new())]);
}

#[test]
fn multi_line_string_positions() {
    let tokens = tokenize("\"a\nb\"").unwrap();
    assert_eq!(
        tokens,
        vec![Token {
            token: TokenType::String("a\nb".to_string()),
            column: 0,
            line: 1,
            end_column: 2,
            end_line: 2,
        }]
    );
}

#[test]
fn unclosed_string_points_at_opening_quote() {
    assert_eq!(tokenize("\"abc"), Err(TokenizationError::UnclosedString { col: 0, line: 1 }));
    assert_eq!(
        tokenize("x \"abc def ghi"),
        Err(TokenizationError::UnclosedString { col: 2, line: 1 })
    );
    // A trailing backslash also leaves the string unclosed.
    assert_eq!(tokenize("\"abc\\"), Err(TokenizationError::UnclosedString { col: 0, line: 1 }));
}

#[test]
fn invalid_escape_cites_the_character() {
    assert_eq!(
        tokenize("\"a\\qb\""),
        Err(TokenizationError::InvalidEscapeCharacter { ch: 'q', col: 3, line: 1 })
    );
}

#[test]
fn position_tracking_across_newlines() {
    let tokens = tokenize("a\nbb").unwrap();
    assert_eq!(
        tokens,
        vec![
            Token {
                token: TokenType::Ident("a".to_string()),
                column: 0,
                line: 1,
                end_column: 1,
                end_line: 1,
            },
            Token {
                token: TokenType::Ident("bb".to_string()),
                column: 0,
                line: 2,
                end_column: 2,
                end_line: 2,
            },
        ]
    );
}

#[test]
fn unrecognized_character_cites_char_and_column() {
    assert_eq!(
        tokenize("@"),
        Err(TokenizationError::UnrecognizedCharacter { ch: '@', col: 0, line: 1 })
    );
    assert_eq!(
        tokenize("ab @"),
        Err(TokenizationError::UnrecognizedCharacter { ch: '@', col: 3, line: 1 })
    );
}

#[test]
fn tokenizing_twice_gives_identical_output() {
    let source = "fn h(a, b) {\n  return 2.5 + a * 'x\\n';\n}";
    let first = tokenize(source);
    let second = tokenize(source);
    assert_eq!(first, second);
}

#[test]
fn ignored_identifier_and_keywords() {
    let tokens = tokenize("_ true false and or xor is while for break continue return fn class _x").unwrap();
    assert_eq!(
        kinds(&tokens),
        vec![
            &TokenType::IgnoreIdent,
            &TokenType::True,
            &TokenType::False,
            &TokenType::And,
            &TokenType::Or,
            &TokenType::Xor,
            &TokenType::Is,
            &TokenType::While,
            &TokenType::For,
            &TokenType::Break,
            &TokenType::Continue,
            &TokenType::Return,
            &TokenType::Function,
            &TokenType::Class,
            &TokenType::Ident("_x".to_string()),
        ]
    );
}

#[test]
fn single_char_tokens_row() {
    let tokens = tokenize("( ) { } [ ] , ; : + - * / % = ! < >").unwrap();
    assert_eq!(
        kinds(&tokens),
        vec![
            &TokenType::OpenParen,
            &TokenType::CloseParen,
            &TokenType::OpenBrace,
            &TokenType::CloseBrace,
            &TokenType::OpenBracket,
            &TokenType::CloseBracket,
            &TokenType::Comma,
            &TokenType::Semicolon,
            &TokenType::Colon,
            &TokenType::Plus,
            &TokenType::Minus,
            &TokenType::Asterisk,
            &TokenType::Slash,
            &TokenType::Percent,
            &TokenType::Assignment,
            &TokenType::Not,
            &TokenType::LessThan,
            &TokenType::GreaterThan,
        ]
    );
}

#[test]
fn negative_number_is_minus_then_int() {
    let tokens = tokenize("-64").unwrap();
    assert_eq!(kinds(&tokens), vec![&TokenType::Minus, &TokenType::Int(64)]);
}

#[test]
fn identifier_with_digits() {
    let tokens = tokenize("abc123 if0").unwrap();
    assert_eq!(
        kinds(&tokens),
        vec![
            &TokenType::Ident("abc123".to_string()),
            &TokenType::Ident("if0".to_string()),
        ]
    );
}
